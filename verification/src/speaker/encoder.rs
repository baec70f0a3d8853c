//! The tensors of a speaker encoder, and how its layers see frames.
use super::policy::{
    fingerprint_text, model_fingerprint, policy_problem, validate_policy, PolicyError,
    SpeakerModelPolicy, SpeakerSegmentLayerPolicy, SpeakerTdnnLayerPolicy,
    SpeakerThresholdPolicy, MAX_SPEAKER_EMBEDDING_DIMENSION,
};
use crate::gguf::{find_by_name, find_gguf_tensor, Gguftensor, QuantizedTensor, TensorDirectory};
use crate::tables::{lemma_place_row, lemma_row_place};
use crate::tensors::Loaded;
use crate::text::{decimal, signed_decimal, Text};
use vstd::prelude::*;
use vstd::string::*;

verus! {

/// What is wrong with a tensor of a speaker model.
#[derive(Clone, Copy, Debug, PartialEq, Eq, Structural)]
pub enum SpeakerTensorProblem {
    NotFound,
    Rank(u32),
    Columns,
    Rows,
    EmptyDimension,
    SegmentOutput(usize),
    ElementOverflow,
    ElementCount { got: usize, wanted: usize },
    Type(i32),
    RangeOverflow,
    OutOfBounds,
}

impl SpeakerTensorProblem {
    /// The message text for the tensor of the given name.
    pub open spec fn text(self, name: Seq<char>) -> Seq<char> {
        match self {
            SpeakerTensorProblem::NotFound => "speaker tensor not found: "@ + name,
            SpeakerTensorProblem::Rank(got) => "speaker tensor "@ + name + " has rank "@ + decimal(
                got as nat,
            ) + ", expected 2"@,
            SpeakerTensorProblem::Columns => "speaker tensor "@ + name
                + " column count does not fit this platform"@,
            SpeakerTensorProblem::Rows => "speaker tensor "@ + name
                + " row count does not fit this platform"@,
            SpeakerTensorProblem::EmptyDimension => "speaker tensor "@ + name
                + " has an empty dimension"@,
            SpeakerTensorProblem::SegmentOutput(rows) => "speaker segment tensor "@ + name
                + " output dimension "@ + decimal(rows as nat) + " exceeds 8192"@,
            SpeakerTensorProblem::ElementOverflow => "speaker tensor "@ + name
                + " element count overflow"@,
            SpeakerTensorProblem::ElementCount { got, wanted } => "speaker tensor "@ + name
                + " has "@ + decimal(got as nat) + " elements, expected "@ + decimal(
                wanted as nat,
            ),
            SpeakerTensorProblem::Type(ttype) => "speaker tensor "@ + name
                + " uses unsupported or invalid GGML type "@ + signed_decimal(ttype as int),
            SpeakerTensorProblem::RangeOverflow => "speaker tensor "@ + name
                + " data range overflow"@,
            SpeakerTensorProblem::OutOfBounds => "speaker tensor "@ + name
                + " exceeds mapped model data"@,
        }
    }

    /// The message text for the tensor of the given name.
    pub fn message(self, name: &str) -> (message: String)
        ensures
            message@ == self.text(name@),
    {
        match self {
            SpeakerTensorProblem::NotFound => Text::start("speaker tensor not found: ").text(
                name,
            ).finish(),
            SpeakerTensorProblem::Rank(got) => Text::start("speaker tensor ").text(name).text(
                " has rank ",
            ).number(got as u64).text(", expected 2").finish(),
            SpeakerTensorProblem::Columns => Text::start("speaker tensor ").text(name).text(
                " column count does not fit this platform",
            ).finish(),
            SpeakerTensorProblem::Rows => Text::start("speaker tensor ").text(name).text(
                " row count does not fit this platform",
            ).finish(),
            SpeakerTensorProblem::EmptyDimension => Text::start("speaker tensor ").text(
                name,
            ).text(" has an empty dimension").finish(),
            SpeakerTensorProblem::SegmentOutput(rows) => Text::start(
                "speaker segment tensor ",
            ).text(name).text(" output dimension ").size(rows).text(" exceeds 8192").finish(),
            SpeakerTensorProblem::ElementOverflow => Text::start("speaker tensor ").text(
                name,
            ).text(" element count overflow").finish(),
            SpeakerTensorProblem::ElementCount { got, wanted } => Text::start(
                "speaker tensor ",
            ).text(name).text(" has ").size(got).text(" elements, expected ").size(
                wanted,
            ).finish(),
            SpeakerTensorProblem::Type(ttype) => Text::start("speaker tensor ").text(name).text(
                " uses unsupported or invalid GGML type ",
            ).signed(ttype as i64).finish(),
            SpeakerTensorProblem::RangeOverflow => Text::start("speaker tensor ").text(name).text(
                " data range overflow",
            ).finish(),
            SpeakerTensorProblem::OutOfBounds => Text::start("speaker tensor ").text(name).text(
                " exceeds mapped model data",
            ).finish(),
        }
    }
}

/// Whether a name is that of a tensor of a segment layer.
pub open spec fn segment_name(name: Seq<char>) -> bool {
    name.len() >= 16 && name.take(16) == "speaker.segment."@
}

fn is_segment_name(name: &str) -> (segment: bool)
    ensures
        segment == segment_name(name@),
{
    proof {
        reveal_strlit("speaker.segment.");
    }
    let prefix = "speaker.segment.";
    if name.unicode_len() < 16 {
        return false;
    }
    let mut i: usize = 0;
    while i < 16
        invariant
            i <= 16,
            name@.len() >= 16,
            prefix@.len() == 16,
            prefix@ == "speaker.segment."@,
            forall|j: int| 0 <= j < i ==> #[trigger] name@[j] == prefix@[j],
        decreases 16 - i,
    {
        if name.get_char(i) != prefix.get_char(i) {
            assert(name@.take(16)[i as int] != prefix@[i as int]);
            return false;
        }
        i = i + 1;
    }
    assert(name@.take(16) =~= prefix@);
    true
}

/// The rows and columns of a matrix, or what is wrong with it.
pub open spec fn matrix_outcome(tensor: Gguftensor, name: Seq<char>) -> Result<
    (usize, usize),
    SpeakerTensorProblem,
> {
    let cols = tensor.ne@[0];
    let rows = tensor.ne@[1];
    if tensor.n_dims != 2 {
        Err(SpeakerTensorProblem::Rank(tensor.n_dims))
    } else if cols > usize::MAX {
        Err(SpeakerTensorProblem::Columns)
    } else if rows > usize::MAX {
        Err(SpeakerTensorProblem::Rows)
    } else if cols == 0 || rows == 0 {
        Err(SpeakerTensorProblem::EmptyDimension)
    } else if rows > MAX_SPEAKER_EMBEDDING_DIMENSION && segment_name(name) {
        Err(SpeakerTensorProblem::SegmentOutput(rows as usize))
    } else {
        Ok((rows as usize, cols as usize))
    }
}

/// The rows and columns of a matrix.
pub fn matrix_shape(tensor: &Gguftensor, name: &str) -> (result: Result<
    (usize, usize),
    SpeakerTensorProblem,
>)
    ensures
        result == matrix_outcome(*tensor, name@),
{
    if tensor.n_dims != 2 {
        return Err(SpeakerTensorProblem::Rank(tensor.n_dims));
    }
    let cols: u64 = tensor.ne[0];
    let rows: u64 = tensor.ne[1];
    if cols > usize::MAX as u64 {
        return Err(SpeakerTensorProblem::Columns);
    }
    if rows > usize::MAX as u64 {
        return Err(SpeakerTensorProblem::Rows);
    }
    if cols == 0 || rows == 0 {
        return Err(SpeakerTensorProblem::EmptyDimension);
    }
    if rows > MAX_SPEAKER_EMBEDDING_DIMENSION as u64 && is_segment_name(name) {
        return Err(SpeakerTensorProblem::SegmentOutput(rows as usize));
    }
    Ok((rows as usize, cols as usize))
}

/// A tensor as a matrix.
pub fn quantized_tensor(tensor: &Gguftensor, rows: usize, cols: usize) -> (matrix: QuantizedTensor)
    ensures
        matrix == (QuantizedTensor {
            data_offset: tensor.data_offset,
            ttype: tensor.ttype,
            rows,
            cols,
        }),
{
    QuantizedTensor { data_offset: tensor.data_offset, ttype: tensor.ttype, rows, cols }
}

/// The number of elements of the first `k` dimensions, where it stays a machine number from
/// dimension to dimension.
pub open spec fn counted(ne: Seq<u64>, k: nat) -> Option<int>
    decreases k,
{
    if k == 0 {
        Some(1)
    } else {
        match counted(ne, (k - 1) as nat) {
            None => None,
            Some(n) => if n * (ne[k - 1] as usize) > usize::MAX {
                None
            } else {
                Some(n * (ne[k - 1] as usize))
            },
        }
    }
}

proof fn lemma_uncountable(ne: Seq<u64>, k: nat, n: nat)
    requires
        k <= n,
        counted(ne, k) is None,
    ensures
        counted(ne, n) is None,
    decreases n,
{
    if k < n {
        lemma_uncountable(ne, k, (n - 1) as nat);
    }
}

/// The number of elements of a tensor.
pub fn tensor_element_count(tensor: &Gguftensor) -> (count: Option<usize>)
    requires
        tensor.n_dims <= 4,
    ensures
        match count {
            Some(n) => counted(tensor.ne@, tensor.n_dims as nat) == Some(n as int),
            None => counted(tensor.ne@, tensor.n_dims as nat) is None,
        },
{
    let mut total: usize = 1;
    let mut i: usize = 0;
    while i < tensor.n_dims as usize
        invariant
            i <= tensor.n_dims <= 4,
            counted(tensor.ne@, i as nat) == Some(total as int),
        decreases tensor.n_dims - i,
    {
        let dim: usize = #[verifier::truncate]
        (tensor.ne[i] as usize);
        total =
        match total.checked_mul(dim) {
            Some(n) => n,
            None => {
                proof {
                    lemma_uncountable(tensor.ne@, (i + 1) as nat, tensor.n_dims as nat);
                }
                return None;
            },
        };
        i = i + 1;
    }
    Some(total)
}

/// Whether sizing the values of a tensor stays within machine numbers.
pub open spec fn values_fit(tensor: Gguftensor) -> bool {
    tensor.n_dims <= 4 && (tensor.block_size > 0 ==> (counted(
        tensor.ne@,
        tensor.n_dims as nat,
    ) matches Some(n) ==> (n % tensor.block_size as int == 0 ==> n / tensor.block_size as int
        * tensor.type_size <= usize::MAX)))
}

/// Whether it does for the tensor of a name, where there is one.
pub open spec fn named_values_fit(tensors: Seq<Gguftensor>, name: Seq<char>) -> bool {
    find_by_name(tensors, name) matches Some(tensor) ==> values_fit(tensor)
}

/// Whether it does for the biases of all layers.
pub open spec fn biases_fit(tensors: Seq<Gguftensor>, policy: SpeakerModelPolicy) -> bool {
    &&& tdnn_biases_fit(tensors, policy.tdnn_layers@)
    &&& segment_biases_fit(tensors, policy.segment_layers@)
}

/// Whether it does for the biases of time-delay layers.
pub open spec fn tdnn_biases_fit(
    tensors: Seq<Gguftensor>,
    layers: Seq<SpeakerTdnnLayerPolicy>,
) -> bool {
    forall|i: int|
        0 <= i < layers.len() ==> named_values_fit(tensors, (#[trigger] layers[i]).bias_name@)
}

/// Whether it does for the biases of segment layers.
pub open spec fn segment_biases_fit(
    tensors: Seq<Gguftensor>,
    layers: Seq<SpeakerSegmentLayerPolicy>,
) -> bool {
    forall|i: int|
        0 <= i < layers.len() ==> named_values_fit(tensors, (#[trigger] layers[i]).bias_name@)
}

/// Where the values of the tensor of a name are, or what is wrong with it.
pub open spec fn floats_outcome(gguf: TensorDirectory, name: Seq<char>, wanted: Option<usize>) -> Result<
    Loaded,
    SpeakerTensorProblem,
> {
    match find_by_name(gguf.tensors@, name) {
        None => Err(SpeakerTensorProblem::NotFound),
        Some(tensor) => match counted(tensor.ne@, tensor.n_dims as nat) {
            None => Err(SpeakerTensorProblem::ElementOverflow),
            Some(elements) => {
                let bytes = elements / tensor.block_size as int * tensor.type_size;
                if wanted is Some && elements != wanted->Some_0 {
                    Err(
                        SpeakerTensorProblem::ElementCount {
                            got: elements as usize,
                            wanted: wanted->Some_0,
                        },
                    )
                } else if tensor.block_size == 0 || tensor.type_size == 0 || elements
                    % tensor.block_size as int != 0 {
                    Err(SpeakerTensorProblem::Type(tensor.ttype))
                } else if tensor.data_offset + bytes > usize::MAX {
                    Err(SpeakerTensorProblem::RangeOverflow)
                } else if tensor.data_offset + bytes > gguf.mapped_len {
                    Err(SpeakerTensorProblem::OutOfBounds)
                } else {
                    Ok(
                        Loaded::Floats {
                            data_offset: tensor.data_offset,
                            byte_len: bytes as usize,
                            elements: elements as usize,
                            ttype: tensor.ttype,
                        },
                    )
                }
            },
        },
    }
}

/// Where the values of the tensor of a name are.
pub fn load_float_tensor(gguf: &TensorDirectory, name: &String, expected_elements: Option<usize>)
    -> (result: Result<Loaded, SpeakerTensorProblem>)
    requires
        named_values_fit(gguf.tensors@, name@),
    ensures
        result == floats_outcome(*gguf, name@, expected_elements),
{
    let tensor = match find_gguf_tensor(gguf, name) {
        Some(tensor) => tensor,
        None => return Err(SpeakerTensorProblem::NotFound),
    };
    assert(values_fit(*tensor));
    let elements: usize = match tensor_element_count(tensor) {
        Some(n) => n,
        None => return Err(SpeakerTensorProblem::ElementOverflow),
    };
    if let Some(wanted) = expected_elements {
        if elements != wanted {
            return Err(SpeakerTensorProblem::ElementCount { got: elements, wanted });
        }
    }
    let block_size: usize = tensor.block_size;
    if block_size == 0 || tensor.type_size == 0 || elements % block_size != 0 {
        return Err(SpeakerTensorProblem::Type(tensor.ttype));
    }
    let blocks: usize = elements / block_size;
    assert(blocks * tensor.type_size >= 0) by (nonlinear_arith);
    let byte_len: usize = blocks * tensor.type_size;
    let end: usize = match tensor.data_offset.checked_add(byte_len) {
        Some(end) => end,
        None => return Err(SpeakerTensorProblem::RangeOverflow),
    };
    if end > gguf.mapped_len {
        return Err(SpeakerTensorProblem::OutOfBounds);
    }
    Ok(
        Loaded::Floats {
            data_offset: tensor.data_offset,
            byte_len,
            elements,
            ttype: tensor.ttype,
        },
    )
}

/// A layer that was loaded: its matrix and where its bias is.
#[derive(Clone, Copy, Debug, PartialEq, Eq, Structural)]
pub struct SpeakerLayer {
    pub weight: QuantizedTensor,
    pub bias: Loaded,
}

/// Why a model is not accepted.
#[derive(Debug)]
pub enum SpeakerError {
    Policy(PolicyError),
    Tensor { name: String, problem: SpeakerTensorProblem },
    TdnnOverflow(usize),
    TdnnInput { index: usize, name: String, cols: usize, wanted: usize, channels: usize, contexts: usize },
    PoolingOverflow,
    SegmentInput { index: usize, name: String, cols: usize, wanted: usize },
}

/// The text of a layer over frames whose input does not fit.
pub open spec fn tdnn_text(
    index: int,
    name: Seq<char>,
    cols: usize,
    wanted: int,
    channels: int,
    contexts: int,
) -> Seq<char> {
    "speaker TDNN layer "@ + decimal(index as nat) + " '"@ + name + "' has "@ + decimal(cols as nat)
        + " input columns, expected "@ + decimal(wanted as nat) + " (channels="@ + decimal(
        channels as nat,
    ) + ", contexts="@ + decimal(contexts as nat) + ")"@
}

/// The text of a segment layer whose input does not fit.
pub open spec fn segment_text(index: int, name: Seq<char>, cols: usize, wanted: int) -> Seq<char> {
    "speaker segment layer "@ + decimal(index as nat) + " '"@ + name + "' has "@ + decimal(
        cols as nat,
    ) + " input columns, expected "@ + decimal(wanted as nat)
}

impl SpeakerError {
    /// The message text of the error.
    pub open spec fn text(self) -> Seq<char> {
        match self {
            SpeakerError::Policy(error) => error.text(),
            SpeakerError::Tensor { name, problem } => problem.text(name@),
            SpeakerError::TdnnOverflow(index) => "speaker TDNN layer "@ + decimal(index as nat)
                + " input shape overflow"@,
            SpeakerError::TdnnInput { index, name, cols, wanted, channels, contexts } => tdnn_text(
                index as int,
                name@,
                cols,
                wanted as int,
                channels as int,
                contexts as int,
            ),
            SpeakerError::PoolingOverflow => "speaker statistics-pooling shape overflow"@,
            SpeakerError::SegmentInput { index, name, cols, wanted } => segment_text(
                index as int,
                name@,
                cols,
                wanted as int,
            ),
        }
    }

    /// The message text of the error.
    pub fn message(&self) -> (message: String)
        ensures
            message@ == self.text(),
    {
        match self {
            SpeakerError::Policy(error) => error.message(),
            SpeakerError::Tensor { name, problem } => problem.message(name.as_str()),
            SpeakerError::TdnnOverflow(index) => Text::start("speaker TDNN layer ").size(
                *index,
            ).text(" input shape overflow").finish(),
            SpeakerError::TdnnInput { index, name, cols, wanted, channels, contexts } =>
                Text::start("speaker TDNN layer ").size(*index).text(" '").text(
                name.as_str(),
            ).text("' has ").size(*cols).text(" input columns, expected ").size(*wanted).text(
                " (channels=",
            ).size(*channels).text(", contexts=").size(*contexts).text(")").finish(),
            SpeakerError::PoolingOverflow => Text::start(
                "speaker statistics-pooling shape overflow",
            ).finish(),
            SpeakerError::SegmentInput { index, name, cols, wanted } => Text::start(
                "speaker segment layer ",
            ).size(*index).text(" '").text(name.as_str()).text("' has ").size(*cols).text(
                " input columns, expected ",
            ).size(*wanted).finish(),
        }
    }
}

/// Layers that were loaded and the number of channels behind them.
#[verifier::ext_equal]
pub struct Loading {
    pub layers: Seq<SpeakerLayer>,
    pub channels: int,
}

/// A layer with the given input, or the text of what is wrong with its weight or its bias.
pub open spec fn layer_outcome(
    gguf: TensorDirectory,
    weight_name: Seq<char>,
    bias_name: Seq<char>,
    wanted: int,
    mismatch: spec_fn(usize) -> Seq<char>,
) -> Result<SpeakerLayer, Seq<char>> {
    match find_by_name(gguf.tensors@, weight_name) {
        None => Err(SpeakerTensorProblem::NotFound.text(weight_name)),
        Some(tensor) => match matrix_outcome(tensor, weight_name) {
            Err(problem) => Err(problem.text(weight_name)),
            Ok((rows, cols)) => if wanted > usize::MAX || cols != wanted {
                Err(mismatch(cols))
            } else {
                match floats_outcome(gguf, bias_name, Some(rows)) {
                    Err(problem) => Err(problem.text(bias_name)),
                    Ok(bias) => Ok(
                        SpeakerLayer {
                            weight: QuantizedTensor {
                                data_offset: tensor.data_offset,
                                ttype: tensor.ttype,
                                rows,
                                cols,
                            },
                            bias,
                        },
                    ),
                }
            },
        },
    }
}

/// The text of a layer over frames that cannot take its input.
pub open spec fn tdnn_mismatch(
    index: int,
    name: Seq<char>,
    channels: int,
    contexts: int,
) -> spec_fn(usize) -> Seq<char> {
    |cols: usize|
        if channels * contexts > usize::MAX {
            "speaker TDNN layer "@ + decimal(index as nat) + " input shape overflow"@
        } else {
            tdnn_text(index, name, cols, channels * contexts, channels, contexts)
        }
}

/// The first `k` layers over frames, or the text of the first thing that is wrong.
pub open spec fn tdnn_outcome(
    gguf: TensorDirectory,
    layers: Seq<SpeakerTdnnLayerPolicy>,
    channels: int,
    k: nat,
) -> Result<Loading, Seq<char>>
    decreases k,
{
    if k == 0 {
        Ok(Loading { layers: Seq::empty(), channels })
    } else {
        match tdnn_outcome(gguf, layers, channels, (k - 1) as nat) {
            Err(text) => Err(text),
            Ok(before) => {
                let layer = layers[k - 1];
                let contexts = layer.contexts@.len() as int;
                match layer_outcome(
                    gguf,
                    layer.weight_name@,
                    layer.bias_name@,
                    before.channels * contexts,
                    tdnn_mismatch(k - 1, layer.weight_name@, before.channels, contexts),
                ) {
                    Err(text) => Err(text),
                    Ok(loaded) => Ok(
                        Loading {
                            layers: before.layers.push(loaded),
                            channels: loaded.weight.rows as int,
                        },
                    ),
                }
            },
        }
    }
}

/// The text of a segment layer that cannot take its input.
pub open spec fn segment_mismatch(index: int, name: Seq<char>, wanted: int) -> spec_fn(usize) -> Seq<
    char,
> {
    |cols: usize| segment_text(index, name, cols, wanted)
}

/// The first `k` segment layers, or the text of the first thing that is wrong.
pub open spec fn segment_outcome(
    gguf: TensorDirectory,
    layers: Seq<SpeakerSegmentLayerPolicy>,
    channels: int,
    k: nat,
) -> Result<Loading, Seq<char>>
    decreases k,
{
    if k == 0 {
        Ok(Loading { layers: Seq::empty(), channels })
    } else {
        match segment_outcome(gguf, layers, channels, (k - 1) as nat) {
            Err(text) => Err(text),
            Ok(before) => {
                let layer = layers[k - 1];
                match layer_outcome(
                    gguf,
                    layer.weight_name@,
                    layer.bias_name@,
                    before.channels,
                    segment_mismatch(k - 1, layer.weight_name@, before.channels),
                ) {
                    Err(text) => Err(text),
                    Ok(loaded) => Ok(
                        Loading {
                            layers: before.layers.push(loaded),
                            channels: loaded.weight.rows as int,
                        },
                    ),
                }
            },
        }
    }
}

proof fn lemma_first_tdnn_error(
    gguf: TensorDirectory,
    layers: Seq<SpeakerTdnnLayerPolicy>,
    channels: int,
    k: nat,
    n: nat,
)
    requires
        k <= n,
        tdnn_outcome(gguf, layers, channels, k) is Err,
    ensures
        tdnn_outcome(gguf, layers, channels, n) == tdnn_outcome(gguf, layers, channels, k),
    decreases n,
{
    if k < n {
        lemma_first_tdnn_error(gguf, layers, channels, k, (n - 1) as nat);
    }
}

proof fn lemma_first_segment_error(
    gguf: TensorDirectory,
    layers: Seq<SpeakerSegmentLayerPolicy>,
    channels: int,
    k: nat,
    n: nat,
)
    requires
        k <= n,
        segment_outcome(gguf, layers, channels, k) is Err,
    ensures
        segment_outcome(gguf, layers, channels, n) == segment_outcome(gguf, layers, channels, k),
    decreases n,
{
    if k < n {
        lemma_first_segment_error(gguf, layers, channels, k, (n - 1) as nat);
    }
}

/// The encoder of a model: its layers over frames, its segment layers, and the length of its
/// embeddings.
#[derive(Debug)]
pub struct SpeakerEncoder {
    pub policy: SpeakerModelPolicy,
    pub fingerprint: String,
    pub tdnn_layers: Vec<SpeakerLayer>,
    pub segment_layers: Vec<SpeakerLayer>,
    pub embedding_dim: usize,
}

/// What an encoder is made of.
#[verifier::ext_equal]
pub struct SpeakerView {
    pub policy: SpeakerModelPolicy,
    pub fingerprint: Seq<char>,
    pub tdnn_layers: Seq<SpeakerLayer>,
    pub segment_layers: Seq<SpeakerLayer>,
    pub embedding_dim: int,
}

impl View for SpeakerEncoder {
    type V = SpeakerView;

    open spec fn view(&self) -> SpeakerView {
        SpeakerView {
            policy: self.policy,
            fingerprint: self.fingerprint@,
            tdnn_layers: self.tdnn_layers@,
            segment_layers: self.segment_layers@,
            embedding_dim: self.embedding_dim as int,
        }
    }
}

/// The encoder of a model, or the text of the first thing that is wrong. The statistics of all
/// frames are twice as many as their channels.
pub open spec fn speaker_outcome(
    gguf: TensorDirectory,
    mapped: Seq<u8>,
    policy: SpeakerModelPolicy,
) -> Result<SpeakerView, Seq<char>> {
    match policy_problem(policy) {
        Some(error) => Err(error.text()),
        None => match tdnn_outcome(
            gguf,
            policy.tdnn_layers@,
            policy.mel_bins as int,
            policy.tdnn_layers@.len(),
        ) {
            Err(text) => Err(text),
            Ok(tdnn) => if tdnn.channels * 2 > usize::MAX {
                Err(SpeakerError::PoolingOverflow.text())
            } else {
                match segment_outcome(
                    gguf,
                    policy.segment_layers@,
                    tdnn.channels * 2,
                    policy.segment_layers@.len(),
                ) {
                    Err(text) => Err(text),
                    Ok(segment) => Ok(
                        SpeakerView {
                            policy,
                            fingerprint: fingerprint_text(mapped),
                            tdnn_layers: tdnn.layers,
                            segment_layers: segment.layers,
                            embedding_dim: segment.channels,
                        },
                    ),
                }
            },
        },
    }
}

fn find_weight<'a>(gguf: &'a TensorDirectory, name: &String) -> (result: Result<
    (&'a Gguftensor, usize, usize),
    SpeakerError,
>)
    ensures
        match result {
            Ok((tensor, rows, cols)) => find_by_name(gguf.tensors@, name@) == Some(*tensor)
                && matrix_outcome(*tensor, name@) == Ok::<(usize, usize), SpeakerTensorProblem>(
                (rows, cols),
            ),
            Err(error) => match find_by_name(gguf.tensors@, name@) {
                None => error.text() == SpeakerTensorProblem::NotFound.text(name@),
                Some(tensor) => matrix_outcome(tensor, name@) matches Err(problem) && error.text()
                    == problem.text(name@),
            },
        },
{
    match find_gguf_tensor(gguf, name) {
        None => Err(
            SpeakerError::Tensor { name: name.clone(), problem: SpeakerTensorProblem::NotFound },
        ),
        Some(tensor) => match matrix_shape(tensor, name.as_str()) {
            Err(problem) => Err(SpeakerError::Tensor { name: name.clone(), problem }),
            Ok((rows, cols)) => Ok((tensor, rows, cols)),
        },
    }
}

fn load_bias(gguf: &TensorDirectory, name: &String, rows: usize) -> (result: Result<
    Loaded,
    SpeakerError,
>)
    requires
        named_values_fit(gguf.tensors@, name@),
    ensures
        match result {
            Ok(bias) => floats_outcome(*gguf, name@, Some(rows)) == Ok::<
                Loaded,
                SpeakerTensorProblem,
            >(bias),
            Err(error) => floats_outcome(*gguf, name@, Some(rows)) matches Err(problem)
                && error.text() == problem.text(name@),
        },
{
    match load_float_tensor(gguf, name, Some(rows)) {
        Ok(bias) => Ok(bias),
        Err(problem) => Err(SpeakerError::Tensor { name: name.clone(), problem }),
    }
}

fn load_tdnn(gguf: &TensorDirectory, layers: &Vec<SpeakerTdnnLayerPolicy>, mel_bins: usize) -> (
    result: Result<(Vec<SpeakerLayer>, usize), SpeakerError>)
    requires
        tdnn_biases_fit(gguf.tensors@, layers@),
    ensures
        match result {
            Ok((loaded, channels)) => tdnn_outcome(
                *gguf,
                layers@,
                mel_bins as int,
                layers@.len(),
            ) == Ok::<Loading, Seq<char>>(
                Loading { layers: loaded@, channels: channels as int },
            ),
            Err(error) => tdnn_outcome(*gguf, layers@, mel_bins as int, layers@.len()) == Err::<
                Loading,
                Seq<char>,
            >(error.text()),
        },
{
    let mut loaded: Vec<SpeakerLayer> = Vec::new();
    let mut channels: usize = mel_bins;
    let mut k: usize = 0;
    while k < layers.len()
        invariant
            tdnn_biases_fit(gguf.tensors@, layers@),
            k <= layers@.len(),
            tdnn_outcome(*gguf, layers@, mel_bins as int, k as nat) == Ok::<Loading, Seq<char>>(
                Loading { layers: loaded@, channels: channels as int },
            ),
        decreases layers.len() - k,
    {
        let layer = &layers[k];
        let contexts: usize = layer.contexts.len();
        proof {
            if tdnn_outcome(*gguf, layers@, mel_bins as int, (k + 1) as nat) is Err {
                lemma_first_tdnn_error(
                    *gguf,
                    layers@,
                    mel_bins as int,
                    (k + 1) as nat,
                    layers@.len(),
                );
            }
        }
        let (tensor, rows, cols) = match find_weight(gguf, &layer.weight_name) {
            Ok(found) => found,
            Err(error) => return Err(error),
        };
        let wanted: usize = match channels.checked_mul(contexts) {
            Some(n) => n,
            None => return Err(SpeakerError::TdnnOverflow(k)),
        };
        if cols != wanted {
            return Err(
                SpeakerError::TdnnInput {
                    index: k,
                    name: layer.weight_name.clone(),
                    cols,
                    wanted,
                    channels,
                    contexts,
                },
            );
        }
        let bias = match load_bias(gguf, &layer.bias_name, rows) {
            Ok(bias) => bias,
            Err(error) => return Err(error),
        };
        loaded.push(SpeakerLayer { weight: quantized_tensor(tensor, rows, cols), bias });
        channels = rows;
        k = k + 1;
    }
    Ok((loaded, channels))
}

fn load_segments(
    gguf: &TensorDirectory,
    layers: &Vec<SpeakerSegmentLayerPolicy>,
    input: usize,
) -> (result: Result<(Vec<SpeakerLayer>, usize), SpeakerError>)
    requires
        segment_biases_fit(gguf.tensors@, layers@),
    ensures
        match result {
            Ok((loaded, channels)) => segment_outcome(
                *gguf,
                layers@,
                input as int,
                layers@.len(),
            ) == Ok::<Loading, Seq<char>>(
                Loading { layers: loaded@, channels: channels as int },
            ),
            Err(error) => segment_outcome(*gguf, layers@, input as int, layers@.len()) == Err::<
                Loading,
                Seq<char>,
            >(error.text()),
        },
{
    let mut loaded: Vec<SpeakerLayer> = Vec::new();
    let mut channels: usize = input;
    let mut k: usize = 0;
    while k < layers.len()
        invariant
            segment_biases_fit(gguf.tensors@, layers@),
            k <= layers@.len(),
            segment_outcome(*gguf, layers@, input as int, k as nat) == Ok::<Loading, Seq<char>>(
                Loading { layers: loaded@, channels: channels as int },
            ),
        decreases layers.len() - k,
    {
        let layer = &layers[k];
        proof {
            if segment_outcome(*gguf, layers@, input as int, (k + 1) as nat) is Err {
                lemma_first_segment_error(
                    *gguf,
                    layers@,
                    input as int,
                    (k + 1) as nat,
                    layers@.len(),
                );
            }
        }
        let (tensor, rows, cols) = match find_weight(gguf, &layer.weight_name) {
            Ok(found) => found,
            Err(error) => return Err(error),
        };
        if cols != channels {
            return Err(
                SpeakerError::SegmentInput {
                    index: k,
                    name: layer.weight_name.clone(),
                    cols,
                    wanted: channels,
                },
            );
        }
        let bias = match load_bias(gguf, &layer.bias_name, rows) {
            Ok(bias) => bias,
            Err(error) => return Err(error),
        };
        loaded.push(SpeakerLayer { weight: quantized_tensor(tensor, rows, cols), bias });
        channels = rows;
        k = k + 1;
    }
    Ok((loaded, channels))
}

impl SpeakerEncoder {
    /// The encoder of a model, whose file is mapped to the given bytes.
    pub fn new(gguf: &TensorDirectory, mapped: &[u8], policy: SpeakerModelPolicy) -> (result: Result<
        SpeakerEncoder,
        SpeakerError,
    >)
        requires
            policy_problem(policy) is None ==> biases_fit(gguf.tensors@, policy),
        ensures
            match result {
                Ok(encoder) => speaker_outcome(*gguf, mapped@, policy) == Ok::<
                    SpeakerView,
                    Seq<char>,
                >(encoder@),
                Err(error) => speaker_outcome(*gguf, mapped@, policy) == Err::<
                    SpeakerView,
                    Seq<char>,
                >(error.text()),
            },
    {
        match validate_policy(&policy) {
            Ok(_) => {},
            Err(error) => return Err(SpeakerError::Policy(error)),
        }
        let fingerprint = model_fingerprint(mapped);
        let (tdnn_layers, channels) = match load_tdnn(gguf, &policy.tdnn_layers, policy.mel_bins) {
            Ok(loaded) => loaded,
            Err(error) => return Err(error),
        };
        let pooled: usize = match channels.checked_mul(2) {
            Some(n) => n,
            None => return Err(SpeakerError::PoolingOverflow),
        };
        let (segment_layers, embedding_dim) = match load_segments(
            gguf,
            &policy.segment_layers,
            pooled,
        ) {
            Ok(loaded) => loaded,
            Err(error) => return Err(error),
        };
        Ok(SpeakerEncoder { policy, fingerprint, tdnn_layers, segment_layers, embedding_dim })
    }

    /// The name of the model.
    pub fn model_name(&self) -> (name: &str)
        ensures
            name@ == self.policy.model_name@,
    {
        self.policy.model_name.as_str()
    }

    /// The architecture of the model.
    pub fn architecture(&self) -> (name: &str)
        ensures
            name@ == self.policy.architecture@,
    {
        self.policy.architecture.as_str()
    }

    /// The fingerprint of the model.
    pub fn fingerprint(&self) -> (fingerprint: &str)
        ensures
            fingerprint@ == self.fingerprint@,
    {
        self.fingerprint.as_str()
    }

    /// The length of embeddings.
    pub fn embedding_dim(&self) -> (dim: usize)
        ensures
            dim == self.embedding_dim,
    {
        self.embedding_dim
    }

    /// The thresholds of the model.
    pub fn thresholds(&self) -> (thresholds: &SpeakerThresholdPolicy)
        ensures
            *thresholds == self.policy.thresholds,
    {
        &self.policy.thresholds
    }

    /// The bit pattern of the shortest duration in seconds.
    pub fn min_audio_seconds(&self) -> (seconds: u32)
        ensures
            seconds == self.policy.min_audio_seconds,
    {
        self.policy.min_audio_seconds
    }
}

/// Why a window cannot be embedded.
#[derive(Clone, Copy, Debug, PartialEq, Eq, Structural)]
pub enum EmbeddingError {
    WindowOverflow,
    WindowShape,
    FeatureOverflow,
    ContextOverflow,
    ContextBufferOverflow,
    OutputOverflow,
}

impl EmbeddingError {
    /// The message text of the error.
    pub open spec fn text(self) -> Seq<char> {
        match self {
            EmbeddingError::WindowOverflow => "speaker feature-window shape overflow"@,
            EmbeddingError::WindowShape => "speaker feature-window shape mismatch"@,
            EmbeddingError::FeatureOverflow => "speaker feature-buffer shape overflow"@,
            EmbeddingError::ContextOverflow => "speaker TDNN context shape overflow"@,
            EmbeddingError::ContextBufferOverflow =>
                "speaker TDNN context-buffer shape overflow"@,
            EmbeddingError::OutputOverflow => "speaker TDNN output-buffer shape overflow"@,
        }
    }

    /// The message text of the error.
    pub fn message(self) -> (message: String)
        ensures
            message@ == self.text(),
    {
        match self {
            EmbeddingError::WindowOverflow => Text::start(
                "speaker feature-window shape overflow",
            ).finish(),
            EmbeddingError::WindowShape => Text::start(
                "speaker feature-window shape mismatch",
            ).finish(),
            EmbeddingError::FeatureOverflow => Text::start(
                "speaker feature-buffer shape overflow",
            ).finish(),
            EmbeddingError::ContextOverflow => Text::start(
                "speaker TDNN context shape overflow",
            ).finish(),
            EmbeddingError::ContextBufferOverflow => Text::start(
                "speaker TDNN context-buffer shape overflow",
            ).finish(),
            EmbeddingError::OutputOverflow => Text::start(
                "speaker TDNN output-buffer shape overflow",
            ).finish(),
        }
    }
}

/// Checks the shape of a window: the number of values of its features.
pub fn check_feature_window(
    values: usize,
    mel_bins: usize,
    valid_frames: usize,
    padded_frames: usize,
) -> (result: Result<usize, EmbeddingError>)
    ensures
        result == if mel_bins * padded_frames > usize::MAX {
            Err::<usize, EmbeddingError>(EmbeddingError::WindowOverflow)
        } else if values != mel_bins * padded_frames {
            Err(EmbeddingError::WindowShape)
        } else if valid_frames * mel_bins > usize::MAX {
            Err(EmbeddingError::FeatureOverflow)
        } else {
            Ok((valid_frames * mel_bins) as usize)
        },
{
    let expected: usize = match mel_bins.checked_mul(padded_frames) {
        Some(n) => n,
        None => return Err(EmbeddingError::WindowOverflow),
    };
    if values != expected {
        return Err(EmbeddingError::WindowShape);
    }
    match valid_frames.checked_mul(mel_bins) {
        Some(n) => Ok(n),
        None => Err(EmbeddingError::FeatureOverflow),
    }
}

/// The number of values that a time-delay layer gives.
pub fn tdnn_output_len(frame_count: usize, output_channels: usize) -> (result: Result<
    usize,
    EmbeddingError,
>)
    ensures
        result == if frame_count * output_channels > usize::MAX {
            Err::<usize, EmbeddingError>(EmbeddingError::OutputOverflow)
        } else {
            Ok((frame_count * output_channels) as usize)
        },
{
    match frame_count.checked_mul(output_channels) {
        Some(n) => Ok(n),
        None => Err(EmbeddingError::OutputOverflow),
    }
}

/// The frame that a context sees: the frames at both ends are repeated.
pub open spec fn seen_frame(frame: int, offset: int, frames: int) -> int {
    if frame + offset < 0 {
        0
    } else if frame + offset >= frames {
        frames - 1
    } else {
        frame + offset
    }
}

fn see_frame(frame: usize, offset: isize, frames: usize) -> (seen: usize)
    requires
        frame < frames,
    ensures
        seen == seen_frame(frame as int, offset as int, frames as int),
        seen < frames,
{
    let place: i128 = frame as i128 + offset as i128;
    if place < 0 {
        0
    } else if place >= frames as i128 {
        frames - 1
    } else {
        place as usize
    }
}

/// The value at a place of the frames in context: for each frame its contexts, one after the
/// other.
pub open spec fn context_value<T>(
    activations: Seq<T>,
    frames: int,
    channels: int,
    contexts: Seq<isize>,
    i: int,
) -> T {
    let width = channels * contexts.len();
    let within = i % width;
    activations[seen_frame(i / width, contexts[within / channels] as int, frames) * channels
        + within % channels]
}

/// Puts frames into the contexts of a layer.
pub fn tdnn_context<T: Copy>(
    activations: &Vec<T>,
    frame_count: usize,
    channels: usize,
    contexts: &Vec<isize>,
) -> (result: Result<Vec<T>, EmbeddingError>)
    requires
        activations@.len() == frame_count * channels,
    ensures
        match result {
            Ok(out) => {
                let width = channels * contexts@.len();
                &&& width <= usize::MAX
                &&& out@.len() == frame_count * width
                &&& forall|i: int|
                    0 <= i < out@.len() ==> #[trigger] out@[i] == context_value(
                        activations@,
                        frame_count as int,
                        channels as int,
                        contexts@,
                        i,
                    )
            },
            Err(error) => {
                let width = channels * contexts@.len();
                if width > usize::MAX {
                    error == EmbeddingError::ContextOverflow
                } else {
                    frame_count * width > usize::MAX && error
                        == EmbeddingError::ContextBufferOverflow
                }
            },
        },
{
    let width: usize = match channels.checked_mul(contexts.len()) {
        Some(n) => n,
        None => return Err(EmbeddingError::ContextOverflow),
    };
    let len: usize = match frame_count.checked_mul(width) {
        Some(n) => n,
        None => return Err(EmbeddingError::ContextBufferOverflow),
    };
    let mut out: Vec<T> = Vec::new();
    let mut i: usize = 0;
    assert(activations@.len() == activations.len());
    while i < len
        invariant
            i == out@.len(),
            i <= len,
            width == channels * contexts@.len(),
            len == frame_count * width,
            activations@.len() == frame_count * channels,
            activations@.len() <= usize::MAX,
            forall|j: int|
                0 <= j < i ==> #[trigger] out@[j] == context_value(
                    activations@,
                    frame_count as int,
                    channels as int,
                    contexts@,
                    j,
                ),
        decreases len - i,
    {
        proof {
            lemma_place_row(frame_count as int, width as int, i as int);
            assert(contexts@.len() * channels == channels * contexts@.len()) by (nonlinear_arith);
            lemma_place_row(
                contexts@.len() as int,
                channels as int,
                i as int % width as int,
            );
        }
        let frame: usize = i / width;
        let within: usize = i % width;
        let seen: usize = see_frame(frame, contexts[within / channels], frame_count);
        let column: usize = within % channels;
        proof {
            lemma_row_place(frame_count as int, channels as int, seen as int, column as int);
            assert(0 <= seen * channels) by (nonlinear_arith);
        }
        out.push(activations[seen * channels + column]);
        i = i + 1;
    }
    Ok(out)
}

/// A context that is only the frame itself changes nothing.
pub proof fn own_context_changes_nothing<T>(
    activations: Seq<T>,
    frames: int,
    channels: int,
    i: int,
)
    requires
        channels > 0,
        frames > 0,
        activations.len() == frames * channels,
        0 <= i < activations.len(),
    ensures
        context_value(activations, frames, channels, seq![0isize], i) == activations[i],
{
    let contexts = seq![0isize];
    assert(contexts.len() == 1 && contexts[0] == 0);
    assert(channels * contexts.len() == channels);
    crate::tables::lemma_place_row(frames, channels, i);
    let within = i % channels;
    vstd::arithmetic::div_mod::lemma_small_mod(within as nat, channels as nat);
    vstd::arithmetic::div_mod::lemma_basic_div(within, channels);
}

/// In context a frame is followed by the frames that its contexts name, counted from it; a context
/// that reaches over an end of the frames sees the frame at that end.
pub proof fn frames_see_their_contexts<T>(
    activations: Seq<T>,
    frames: int,
    channels: int,
    contexts: Seq<isize>,
    frame: int,
    context: int,
    channel: int,
)
    requires
        activations.len() == frames * channels,
        0 <= frame < frames,
        0 <= context < contexts.len(),
        0 <= channel < channels,
    ensures
        ({
            let place = (frame * contexts.len() + context) * channels + channel;
            let seen = frame + contexts[context];
            let value = context_value(activations, frames, channels, contexts, place);
            &&& 0 <= place < frames * (channels * contexts.len())
            &&& 0 <= seen < frames ==> value == activations[seen * channels + channel]
            &&& seen < 0 ==> value == activations[channel]
            &&& seen >= frames ==> value == activations[(frames - 1) * channels + channel]
        }),
{
    let n = contexts.len() as int;
    let width = channels * n;
    let within = context * channels + channel;
    assert(n * channels == channels * n) by (nonlinear_arith);
    lemma_row_place(n, channels, context, channel);
    lemma_row_place(frames, width, frame, within);
    assert((frame * n + context) * channels == frame * (channels * n) + context * channels)
        by (nonlinear_arith);
}

/// Whether a layer is that of a weight and a bias of a model file: the weight is the matrix of its
/// name with as many columns as there are inputs, the bias the values of its name, one for each
/// row.
#[verifier::opaque]
pub open spec fn is_layer_of(
    layer: SpeakerLayer,
    gguf: TensorDirectory,
    weight_name: Seq<char>,
    bias_name: Seq<char>,
    inputs: int,
) -> bool {
    &&& find_by_name(gguf.tensors@, weight_name) matches Some(tensor) && {
        &&& tensor.n_dims == 2
        &&& tensor.ne@[0] == inputs
        &&& tensor.ne@[1] == layer.weight.rows
        &&& layer.weight.cols == inputs
        &&& layer.weight.data_offset == tensor.data_offset
        &&& layer.weight.ttype == tensor.ttype
    }
    &&& layer.weight.rows > 0
    &&& find_by_name(gguf.tensors@, bias_name) matches Some(tensor) && (
    layer.bias matches Loaded::Floats { data_offset, byte_len, elements, ttype } && {
        &&& data_offset == tensor.data_offset
        &&& ttype == tensor.ttype
        &&& elements == layer.weight.rows
        &&& byte_len == elements as int / tensor.block_size as int * tensor.type_size
        &&& data_offset + byte_len <= gguf.mapped_len
    })
}

proof fn lemma_tdnn_layers(
    gguf: TensorDirectory,
    layers: Seq<SpeakerTdnnLayerPolicy>,
    channels: int,
    k: nat,
)
    requires
        k <= layers.len(),
        tdnn_biases_fit(gguf.tensors@, layers),
    ensures
        tdnn_outcome(gguf, layers, channels, k) matches Ok(loading) ==> {
            &&& loading.layers.len() == k
            &&& loading.channels == if k == 0 {
                channels
            } else {
                loading.layers[k - 1].weight.rows as int
            }
            &&& forall|i: int|
                0 <= i < k ==> is_layer_of(
                    #[trigger] loading.layers[i],
                    gguf,
                    layers[i].weight_name@,
                    layers[i].bias_name@,
                    (if i == 0 {
                        channels
                    } else {
                        loading.layers[i - 1].weight.rows as int
                    }) * layers[i].contexts@.len(),
                )
        },
    decreases k,
{
    if k > 0 {
        reveal(is_layer_of);
        lemma_tdnn_layers(gguf, layers, channels, (k - 1) as nat);
        assert(named_values_fit(gguf.tensors@, layers[k - 1].bias_name@));
    }
}

proof fn lemma_segment_layers(
    gguf: TensorDirectory,
    layers: Seq<SpeakerSegmentLayerPolicy>,
    channels: int,
    k: nat,
)
    requires
        k <= layers.len(),
        segment_biases_fit(gguf.tensors@, layers),
    ensures
        segment_outcome(gguf, layers, channels, k) matches Ok(loading) ==> {
            &&& loading.layers.len() == k
            &&& loading.channels == if k == 0 {
                channels
            } else {
                loading.layers[k - 1].weight.rows as int
            }
            &&& forall|i: int|
                0 <= i < k ==> is_layer_of(
                    #[trigger] loading.layers[i],
                    gguf,
                    layers[i].weight_name@,
                    layers[i].bias_name@,
                    if i == 0 {
                        channels
                    } else {
                        loading.layers[i - 1].weight.rows as int
                    },
                )
        },
    decreases k,
{
    if k > 0 {
        reveal(is_layer_of);
        lemma_segment_layers(gguf, layers, channels, (k - 1) as nat);
        assert(named_values_fit(gguf.tensors@, layers[k - 1].bias_name@));
    }
}

/// The layers of an encoder are those that its policy names, and each takes what the one before it
/// gives: a layer over frames as many channels of each context frame, the first segment layer two
/// statistics of each channel, and the last segment layer gives the embedding.
pub proof fn layers_take_what_the_layer_before_gives(
    gguf: TensorDirectory,
    mapped: Seq<u8>,
    policy: SpeakerModelPolicy,
)
    requires
        biases_fit(gguf.tensors@, policy),
        policy.tdnn_layers@.len() > 0,
        policy.segment_layers@.len() > 0,
    ensures
        speaker_outcome(gguf, mapped, policy) matches Ok(encoder) ==> {
            &&& encoder.policy == policy
            &&& encoder.tdnn_layers.len() == policy.tdnn_layers@.len()
            &&& encoder.segment_layers.len() == policy.segment_layers@.len()
            &&& encoder.embedding_dim == encoder.segment_layers.last().weight.rows
            &&& forall|i: int|
                0 <= i < encoder.tdnn_layers.len() ==> is_layer_of(
                    #[trigger] encoder.tdnn_layers[i],
                    gguf,
                    policy.tdnn_layers@[i].weight_name@,
                    policy.tdnn_layers@[i].bias_name@,
                    (if i == 0 {
                        policy.mel_bins as int
                    } else {
                        encoder.tdnn_layers[i - 1].weight.rows as int
                    }) * policy.tdnn_layers@[i].contexts@.len(),
                )
            &&& forall|i: int|
                0 <= i < encoder.segment_layers.len() ==> is_layer_of(
                    #[trigger] encoder.segment_layers[i],
                    gguf,
                    policy.segment_layers@[i].weight_name@,
                    policy.segment_layers@[i].bias_name@,
                    if i == 0 {
                        2 * encoder.tdnn_layers.last().weight.rows
                    } else {
                        encoder.segment_layers[i - 1].weight.rows as int
                    },
                )
        },
{
    lemma_tdnn_layers(
        gguf,
        policy.tdnn_layers@,
        policy.mel_bins as int,
        policy.tdnn_layers@.len(),
    );
    match tdnn_outcome(
        gguf,
        policy.tdnn_layers@,
        policy.mel_bins as int,
        policy.tdnn_layers@.len(),
    ) {
        Ok(tdnn) => {
            lemma_segment_layers(
                gguf,
                policy.segment_layers@,
                tdnn.channels * 2,
                policy.segment_layers@.len(),
            );
        },
        Err(_) => {},
    }
}

/// A layer is accepted exactly where its weight is a matrix with as many columns as there are
/// inputs and its bias has a value for each row, in whole blocks within the file. A segment layer
/// has no more outputs than an embedding may have.
pub proof fn layers_are_accepted_where_they_fit(
    gguf: TensorDirectory,
    weight_name: Seq<char>,
    bias_name: Seq<char>,
    inputs: int,
    mismatch: spec_fn(usize) -> Seq<char>,
)
    requires
        0 <= inputs,
        named_values_fit(gguf.tensors@, bias_name),
    ensures
        layer_outcome(gguf, weight_name, bias_name, inputs, mismatch) is Ok <==> {
            &&& find_by_name(gguf.tensors@, weight_name) matches Some(weight) && {
                &&& weight.n_dims == 2
                &&& 0 < weight.ne@[0] <= usize::MAX
                &&& weight.ne@[0] == inputs
                &&& 0 < weight.ne@[1] <= usize::MAX
                &&& segment_name(weight_name) ==> weight.ne@[1] <= MAX_SPEAKER_EMBEDDING_DIMENSION
                &&& find_by_name(gguf.tensors@, bias_name) matches Some(bias) && {
                    let rows = weight.ne@[1] as int;
                    &&& counted(bias.ne@, bias.n_dims as nat) == Some(rows)
                    &&& bias.block_size > 0
                    &&& bias.type_size > 0
                    &&& rows % bias.block_size as int == 0
                    &&& bias.data_offset + rows / bias.block_size as int * bias.type_size
                        <= gguf.mapped_len
                }
            }
        },
{
}

} // verus!
