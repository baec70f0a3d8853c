//! How values move through the audio encoder: feature maps, convolution patches, tokens and
//! heads, and the checks on their shapes.
use super::qwen3_asr::{
    conv_output_size, conv_size, ConvolutionInputError, Qwen3AsrAudioConfig, Qwen3AsrAudioEncoder,
    CONV_KERNEL, CONV_PADDING, CONV_STRIDE, GGML_TYPE_BF16, GGML_TYPE_F16, MEL_FRAMES_PER_CHUNK,
    TOKENS_PER_CHUNK,
};
use crate::audio::prepared::{PreparedAudioFeatureWindow, PreparedAudioFeatureWindowPlan};
use crate::bits::{
    activation_bfloat, activation_half, finite_bits, half_widened, is_finite_bits, round_to_bf16,
    round_to_f16,
};
use crate::gguf::QuantizedTensor;
use crate::parallel::{par_fill_rows, RowSource};
use crate::tables::{lemma_place_row, lemma_row_place};
use crate::tensors::Shape;
use crate::text::{decimal, Text};
use vstd::arithmetic::div_mod::{lemma_fundamental_div_mod, lemma_fundamental_div_mod_converse};
use vstd::prelude::*;

verus! {

/// What is wrong with the values that flow through the encoder.
#[derive(Clone, Copy, Debug, PartialEq, Eq, Structural)]
pub enum GraphError {
    MelBins { start_frame: usize, got: usize, wanted: usize },
    PaddedFrames { start_frame: usize, got: usize },
    ValidFrames { start_frame: usize, valid: usize, padded: usize },
    WindowOverflow,
    WindowValues { start_frame: usize, got: usize, wanted: usize },
    MapOverflow,
    Channels { got: usize, wanted: usize },
    KernelOverflow,
    KernelWeightOverflow,
    KernelShape,
    ConvolutionInput(usize),
    FlattenedDim,
    TokenCount,
    FlattenedOutput,
    ChunkTokens { got: usize },
    ProjectionInputs { wanted: usize, got: usize },
    ProjectionOutput,
    PositionInputOverflow,
    PositionInputShape,
    PositionTokens { got: usize },
    PositionRows { got: usize },
    PositionTableOverflow,
    PositionTableValues { got: usize, wanted: usize },
    ProjectorInputOverflow,
    ProjectorShape,
    ProjectorOutputOverflow,
    TransformerInputOverflow,
    TransformerShape,
    TransformerLayers { got: usize, wanted: usize },
    HeadOverflow,
    AttentionOverflow,
    PostNormShape,
    NoWindows,
    WindowPlan { start_frame: usize, valid: usize, padded: usize },
    PlannedOverflow,
    FixtureValues { got: usize, dim: usize },
    FixtureTokens { got: usize },
}

impl GraphError {
    /// The message text of the error.
    pub open spec fn text(self) -> Seq<char> {
        match self {
            GraphError::MelBins { start_frame, got, wanted } =>
                "qwen3_asr feature window at frame "@ + decimal(start_frame as nat) + " has "@
                    + decimal(got as nat) + " mel bins, expected "@ + decimal(wanted as nat),
            GraphError::PaddedFrames { start_frame, got } =>
                "qwen3_asr feature window at frame "@ + decimal(start_frame as nat) + " has "@
                    + decimal(got as nat)
                    + " padded frames; expected a non-zero multiple of 100"@,
            GraphError::ValidFrames { start_frame, valid, padded } =>
                "qwen3_asr feature window at frame "@ + decimal(start_frame as nat) + " has "@
                    + decimal(valid as nat) + " valid frames but only "@ + decimal(padded as nat)
                    + " padded frames"@,
            GraphError::WindowOverflow => "qwen3_asr feature-window size overflow"@,
            GraphError::WindowValues { start_frame, got, wanted } =>
                "qwen3_asr feature window at frame "@ + decimal(start_frame as nat) + " has "@
                    + decimal(got as nat) + " values, expected "@ + decimal(wanted as nat),
            GraphError::MapOverflow => "qwen3_asr convolution feature-map size overflow"@,
            GraphError::Channels { got, wanted } =>
                "qwen3_asr convolution channel mismatch: input has "@ + decimal(got as nat)
                    + ", weight expects "@ + decimal(wanted as nat),
            GraphError::KernelOverflow => "qwen3_asr convolution kernel size overflow"@,
            GraphError::KernelWeightOverflow => "qwen3_asr convolution weight size overflow"@,
            GraphError::KernelShape => "qwen3_asr convolution runtime weight shape mismatch"@,
            GraphError::ConvolutionInput(size) => ConvolutionInputError(size).text(),
            GraphError::FlattenedDim => "qwen3_asr flattened convolution dimension overflow"@,
            GraphError::TokenCount => "qwen3_asr convolution token count overflow"@,
            GraphError::FlattenedOutput => "qwen3_asr flattened convolution output overflow"@,
            GraphError::ChunkTokens { got } =>
                "internal qwen3_asr convolution token mismatch: got "@ + decimal(got as nat)
                    + " per chunk, expected 13"@,
            GraphError::ProjectionInputs { wanted, got } =>
                "qwen3_asr convolution projection expects "@ + decimal(wanted as nat)
                    + " inputs, got "@ + decimal(got as nat),
            GraphError::ProjectionOutput =>
                "qwen3_asr convolution projection output overflow"@,
            GraphError::PositionInputOverflow => "qwen3_asr positional input size overflow"@,
            GraphError::PositionInputShape => "qwen3_asr positional input shape mismatch"@,
            GraphError::PositionTokens { got } => "qwen3_asr positional token count "@ + decimal(
                got as nat,
            ) + " is not a non-zero multiple of 13"@,
            GraphError::PositionRows { got } => "qwen3_asr position table has "@ + decimal(
                got as nat,
            ) + " rows, expected at least 13"@,
            GraphError::PositionTableOverflow => "qwen3_asr position table size overflow"@,
            GraphError::PositionTableValues { got, wanted } => "qwen3_asr position table has "@
                + decimal(got as nat) + " values, expected "@ + decimal(wanted as nat),
            GraphError::ProjectorInputOverflow => "qwen3_asr projector input size overflow"@,
            GraphError::ProjectorShape =>
                "qwen3_asr projector input or runtime weight shape mismatch"@,
            GraphError::ProjectorOutputOverflow => "qwen3_asr projector output size overflow"@,
            GraphError::TransformerInputOverflow => "qwen3_asr transformer input size overflow"@,
            GraphError::TransformerShape => "qwen3_asr transformer input shape mismatch"@,
            GraphError::TransformerLayers { got, wanted } => "qwen3_asr transformer has "@
                + decimal(got as nat) + " loaded layers, expected "@ + decimal(wanted as nat),
            GraphError::HeadOverflow => "qwen3_asr attention head scratch overflow"@,
            GraphError::AttentionOverflow => "qwen3_asr attention scratch size overflow"@,
            GraphError::PostNormShape => "qwen3_asr post-layer-norm shape mismatch"@,
            GraphError::NoWindows => "qwen3_asr audio plan contains no feature windows"@,
            GraphError::WindowPlan { start_frame, valid, padded } =>
                "invalid qwen3_asr feature-window plan at frame "@ + decimal(start_frame as nat)
                    + ": valid="@ + decimal(valid as nat) + ", padded="@ + decimal(padded as nat),
            GraphError::PlannedOverflow => "qwen3_asr planned embedding token count overflow"@,
            GraphError::FixtureValues { got, dim } => "qwen3_asr convolution-output fixture has "@
                + decimal(got as nat) + " values; expected a non-zero multiple of "@ + decimal(
                dim as nat,
            ),
            GraphError::FixtureTokens { got } => "qwen3_asr convolution-output fixture has "@
                + decimal(got as nat) + " tokens; expected a multiple of 13"@,
        }
    }

    /// The message text of the error.
    pub fn message(self) -> (message: String)
        ensures
            message@ == self.text(),
    {
        match self {
            GraphError::MelBins { start_frame, got, wanted } => Text::start(
                "qwen3_asr feature window at frame ",
            ).size(start_frame).text(" has ").size(got).text(" mel bins, expected ").size(
                wanted,
            ).finish(),
            GraphError::PaddedFrames { start_frame, got } => Text::start(
                "qwen3_asr feature window at frame ",
            ).size(start_frame).text(" has ").size(got).text(
                " padded frames; expected a non-zero multiple of 100",
            ).finish(),
            GraphError::ValidFrames { start_frame, valid, padded } => Text::start(
                "qwen3_asr feature window at frame ",
            ).size(start_frame).text(" has ").size(valid).text(" valid frames but only ").size(
                padded,
            ).text(" padded frames").finish(),
            GraphError::WindowOverflow => Text::start(
                "qwen3_asr feature-window size overflow",
            ).finish(),
            GraphError::WindowValues { start_frame, got, wanted } => Text::start(
                "qwen3_asr feature window at frame ",
            ).size(start_frame).text(" has ").size(got).text(" values, expected ").size(
                wanted,
            ).finish(),
            GraphError::MapOverflow => Text::start(
                "qwen3_asr convolution feature-map size overflow",
            ).finish(),
            GraphError::Channels { got, wanted } => Text::start(
                "qwen3_asr convolution channel mismatch: input has ",
            ).size(got).text(", weight expects ").size(wanted).finish(),
            GraphError::KernelOverflow => Text::start(
                "qwen3_asr convolution kernel size overflow",
            ).finish(),
            GraphError::KernelWeightOverflow => Text::start(
                "qwen3_asr convolution weight size overflow",
            ).finish(),
            GraphError::KernelShape => Text::start(
                "qwen3_asr convolution runtime weight shape mismatch",
            ).finish(),
            GraphError::ConvolutionInput(size) => ConvolutionInputError(size).message(),
            GraphError::FlattenedDim => Text::start(
                "qwen3_asr flattened convolution dimension overflow",
            ).finish(),
            GraphError::TokenCount => Text::start(
                "qwen3_asr convolution token count overflow",
            ).finish(),
            GraphError::FlattenedOutput => Text::start(
                "qwen3_asr flattened convolution output overflow",
            ).finish(),
            GraphError::ChunkTokens { got } => Text::start(
                "internal qwen3_asr convolution token mismatch: got ",
            ).size(got).text(" per chunk, expected 13").finish(),
            GraphError::ProjectionInputs { wanted, got } => Text::start(
                "qwen3_asr convolution projection expects ",
            ).size(wanted).text(" inputs, got ").size(got).finish(),
            GraphError::ProjectionOutput => Text::start(
                "qwen3_asr convolution projection output overflow",
            ).finish(),
            GraphError::PositionInputOverflow => Text::start(
                "qwen3_asr positional input size overflow",
            ).finish(),
            GraphError::PositionInputShape => Text::start(
                "qwen3_asr positional input shape mismatch",
            ).finish(),
            GraphError::PositionTokens { got } => Text::start(
                "qwen3_asr positional token count ",
            ).size(got).text(" is not a non-zero multiple of 13").finish(),
            GraphError::PositionRows { got } => Text::start("qwen3_asr position table has ").size(
                got,
            ).text(" rows, expected at least 13").finish(),
            GraphError::PositionTableOverflow => Text::start(
                "qwen3_asr position table size overflow",
            ).finish(),
            GraphError::PositionTableValues { got, wanted } => Text::start(
                "qwen3_asr position table has ",
            ).size(got).text(" values, expected ").size(wanted).finish(),
            GraphError::ProjectorInputOverflow => Text::start(
                "qwen3_asr projector input size overflow",
            ).finish(),
            GraphError::ProjectorShape => Text::start(
                "qwen3_asr projector input or runtime weight shape mismatch",
            ).finish(),
            GraphError::ProjectorOutputOverflow => Text::start(
                "qwen3_asr projector output size overflow",
            ).finish(),
            GraphError::TransformerInputOverflow => Text::start(
                "qwen3_asr transformer input size overflow",
            ).finish(),
            GraphError::TransformerShape => Text::start(
                "qwen3_asr transformer input shape mismatch",
            ).finish(),
            GraphError::TransformerLayers { got, wanted } => Text::start(
                "qwen3_asr transformer has ",
            ).size(got).text(" loaded layers, expected ").size(wanted).finish(),
            GraphError::HeadOverflow => Text::start(
                "qwen3_asr attention head scratch overflow",
            ).finish(),
            GraphError::AttentionOverflow => Text::start(
                "qwen3_asr attention scratch size overflow",
            ).finish(),
            GraphError::PostNormShape => Text::start(
                "qwen3_asr post-layer-norm shape mismatch",
            ).finish(),
            GraphError::NoWindows => Text::start(
                "qwen3_asr audio plan contains no feature windows",
            ).finish(),
            GraphError::WindowPlan { start_frame, valid, padded } => Text::start(
                "invalid qwen3_asr feature-window plan at frame ",
            ).size(start_frame).text(": valid=").size(valid).text(", padded=").size(
                padded,
            ).finish(),
            GraphError::PlannedOverflow => Text::start(
                "qwen3_asr planned embedding token count overflow",
            ).finish(),
            GraphError::FixtureValues { got, dim } => Text::start(
                "qwen3_asr convolution-output fixture has ",
            ).size(got).text(" values; expected a non-zero multiple of ").size(dim).finish(),
            GraphError::FixtureTokens { got } => Text::start(
                "qwen3_asr convolution-output fixture has ",
            ).size(got).text(" tokens; expected a multiple of 13").finish(),
        }
    }
}

/// A map of features: for each batch, rows of columns of channels.
#[derive(Debug)]
pub struct ConvFeatureMap<T> {
    pub batch_count: usize,
    pub width: usize,
    pub height: usize,
    pub channels: usize,
    pub data: Vec<T>,
}

impl<T> ConvFeatureMap<T> {
    /// The number of values is that of the dimensions.
    pub open spec fn wf(&self) -> bool {
        self.data@.len() == self.batch_count * self.height * self.width * self.channels
    }

    /// The place of a value.
    pub open spec fn place(&self, batch: int, y: int, x: int, channel: int) -> int {
        ((batch * self.height + y) * self.width + x) * self.channels + channel
    }

    /// The value at a row, column and channel of a batch.
    pub open spec fn at(&self, batch: int, y: int, x: int, channel: int) -> T {
        self.data@[self.place(batch, y, x, channel)]
    }
}

/// The number of values of a feature map.
pub fn checked_feature_map_len(
    batch_count: usize,
    width: usize,
    height: usize,
    channels: usize,
) -> (result: Result<usize, GraphError>)
    ensures
        match result {
            Ok(len) => {
                &&& map_fits(batch_count as int, width as int, height as int, channels as int)
                &&& len == batch_count * width * height * channels
            },
            Err(error) => {
                &&& !map_fits(batch_count as int, width as int, height as int, channels as int)
                &&& error == GraphError::MapOverflow
            },
        },
{
    let row: usize = match batch_count.checked_mul(width) {
        Some(n) => n,
        None => return Err(GraphError::MapOverflow),
    };
    let plane: usize = match row.checked_mul(height) {
        Some(n) => n,
        None => return Err(GraphError::MapOverflow),
    };
    match plane.checked_mul(channels) {
        Some(n) => Ok(n),
        None => Err(GraphError::MapOverflow),
    }
}

/// Whether the number of values of a feature map stays a machine number.
pub open spec fn map_fits(batch_count: int, width: int, height: int, channels: int) -> bool {
    &&& batch_count * width <= usize::MAX
    &&& batch_count * width * height <= usize::MAX
    &&& batch_count * width * height * channels <= usize::MAX
}

/// What is wrong with a feature window, if anything is.
pub open spec fn window_problem<T>(
    window: PreparedAudioFeatureWindow<T>,
    mel_bins: usize,
) -> Option<GraphError> {
    let start_frame = window.start_frame;
    let padded = window.padded_frames;
    if window.mel_bins != mel_bins {
        Some(GraphError::MelBins { start_frame, got: window.mel_bins, wanted: mel_bins })
    } else if padded == 0 || padded % 100 != 0 {
        Some(GraphError::PaddedFrames { start_frame, got: padded })
    } else if window.valid_frames > padded {
        Some(GraphError::ValidFrames { start_frame, valid: window.valid_frames, padded })
    } else if mel_bins * padded > usize::MAX {
        Some(GraphError::WindowOverflow)
    } else if window.data_mel_major@.len() != mel_bins * padded {
        Some(
            GraphError::WindowValues {
                start_frame,
                got: window.data_mel_major@.len() as usize,
                wanted: (mel_bins * padded) as usize,
            },
        )
    } else {
        None
    }
}

/// The values of a window cut into chunks of a hundred frames: for each chunk, the rows of the mel
/// bins.
pub open spec fn chunked<T>(window: PreparedAudioFeatureWindow<T>, mel_bins: int) -> Seq<T> {
    Seq::new(
        ((window.padded_frames as int / 100) * mel_bins * 100) as nat,
        |i: int|
            {
                let row = i / 100;
                window.data_mel_major@[(row % mel_bins) * window.padded_frames + (row / mel_bins)
                    * 100 + i % 100]
            },
    )
}

/// Cuts a window into the feature map of the first convolution.
pub fn feature_map_from_window<T: Copy>(
    window: &PreparedAudioFeatureWindow<T>,
    expected_mel_bins: usize,
) -> (result: Result<ConvFeatureMap<T>, GraphError>)
    ensures
        match result {
            Ok(map) => {
                &&& window_problem(*window, expected_mel_bins) is None
                &&& map.batch_count == window.padded_frames as int / 100
                &&& map.width == 100
                &&& map.height == expected_mel_bins
                &&& map.channels == 1
                &&& map.wf()
                &&& map.data@ == chunked(*window, expected_mel_bins as int)
                &&& map.data@.len() == window.data_mel_major@.len()
                &&& forall|m: int, f: int|
                    0 <= m < expected_mel_bins && 0 <= f < window.padded_frames
                        ==> #[trigger] map.data@[((f / 100) * expected_mel_bins + m) * 100 + f % 100]
                        == #[trigger] window.data_mel_major@[m * window.padded_frames + f]
            },
            Err(error) => window_problem(*window, expected_mel_bins) == Some(error),
        },
{
    let start_frame: usize = window.start_frame;
    let padded: usize = window.padded_frames;
    if window.mel_bins != expected_mel_bins {
        return Err(
            GraphError::MelBins { start_frame, got: window.mel_bins, wanted: expected_mel_bins },
        );
    }
    if padded == 0 || padded % MEL_FRAMES_PER_CHUNK != 0 {
        return Err(GraphError::PaddedFrames { start_frame, got: padded });
    }
    if window.valid_frames > padded {
        return Err(GraphError::ValidFrames { start_frame, valid: window.valid_frames, padded });
    }
    let expected_len: usize = match expected_mel_bins.checked_mul(padded) {
        Some(len) => len,
        None => return Err(GraphError::WindowOverflow),
    };
    if window.data_mel_major.len() != expected_len {
        return Err(
            GraphError::WindowValues {
                start_frame,
                got: window.data_mel_major.len(),
                wanted: expected_len,
            },
        );
    }
    let batch_count: usize = padded / MEL_FRAMES_PER_CHUNK;
    let ghost mel = expected_mel_bins as int;
    let ghost target = chunked(*window, mel);
    let mut data: Vec<T> = Vec::new();
    let mut batch: usize = 0;
    assert(data@ =~= target.take(0));
    proof {
        assert(0 * mel * 100 == 0) by (nonlinear_arith);
        assert(batch_count * mel * 100 == mel * padded) by (nonlinear_arith)
            requires
                batch_count * 100 == padded,
        ;
    }
    while batch < batch_count
        invariant
            batch <= batch_count,
            batch_count * 100 == padded,
            mel == expected_mel_bins,
            padded == window.padded_frames,
            target == chunked(*window, mel),
            target.len() == batch_count * mel * 100,
            window.data_mel_major@.len() == mel * padded <= usize::MAX,
            0 <= batch * mel * 100 <= target.len(),
            data@ == target.take(batch * mel * 100),
        decreases batch_count - batch,
    {
        let mut bin: usize = 0;
        assert((batch * mel + 0) * 100 == batch * mel * 100);
        while bin < expected_mel_bins
            invariant
                batch < batch_count,
                bin <= expected_mel_bins,
                batch_count * 100 == padded,
                mel == expected_mel_bins,
                padded == window.padded_frames,
                target == chunked(*window, mel),
                target.len() == batch_count * mel * 100,
                window.data_mel_major@.len() == mel * padded <= usize::MAX,
                0 <= (batch * mel + bin) * 100 <= target.len(),
                data@ == target.take((batch * mel + bin) * 100),
            decreases expected_mel_bins - bin,
        {
            let mut frame: usize = 0;
            let ghost row = batch * mel + bin;
            proof {
                lemma_row_place(batch_count as int, mel, batch as int, bin as int);
                assert((row + 1) * 100 <= target.len()) by (nonlinear_arith)
                    requires
                        row + 1 <= batch_count * mel,
                        target.len() == batch_count * mel * 100,
                ;
            }
            while frame < MEL_FRAMES_PER_CHUNK
                invariant
                    batch < batch_count,
                    bin < expected_mel_bins,
                    frame <= 100,
                    batch_count * 100 == padded,
                    mel == expected_mel_bins,
                    padded == window.padded_frames,
                    row == batch * mel + bin,
                    row / mel == batch,
                    row % mel == bin,
                    0 <= row,
                    target == chunked(*window, mel),
                    row * 100 + 100 <= target.len(),
                    window.data_mel_major@.len() == mel * padded <= usize::MAX,
                    data@ == target.take(row * 100 + frame),
                decreases 100 - frame,
            {
                proof {
                    let column = batch * 100 + frame;
                    assert(0 <= column < padded);
                    lemma_row_place(mel, padded as int, bin as int, column);
                    assert(0 <= bin * padded) by (nonlinear_arith);
                    lemma_row_place(row + 1, 100, row, frame as int);
                }
                let source: usize = bin * padded + (batch * MEL_FRAMES_PER_CHUNK + frame);
                data.push(window.data_mel_major[source]);
                proof {
                    let i = row * 100 + frame;
                    assert(target[i] == window.data_mel_major@[source as int]);
                    assert(data@ =~= target.take(i + 1));
                }
                frame = frame + 1;
            }
            assert(row * 100 + 100 == (batch * mel + (bin + 1)) * 100);
            bin = bin + 1;
        }
        assert((batch * mel + mel) * 100 == (batch + 1) * mel * 100) by (nonlinear_arith);
        batch = batch + 1;
    }
    assert(target.take(target.len() as int) =~= target);
    assert(data@.len() == batch_count * mel * 100 * 1);
    proof {
        windows_are_cut_without_loss(*window, mel);
    }
    Ok(
        ConvFeatureMap {
            batch_count,
            width: MEL_FRAMES_PER_CHUNK,
            height: expected_mel_bins,
            channels: 1,
            data,
        },
    )
}

/// Cutting a window into chunks loses nothing, repeats nothing and keeps frames in their order:
/// the value of every mel bin at every frame stands in the chunk of that frame, in the row of its
/// bin, and there are as many values as before.
pub proof fn windows_are_cut_without_loss<T>(window: PreparedAudioFeatureWindow<T>, mel_bins: int)
    requires
        mel_bins >= 0,
        window.padded_frames % 100 == 0,
        window.data_mel_major@.len() == mel_bins * window.padded_frames,
    ensures
        chunked(window, mel_bins).len() == window.data_mel_major@.len(),
        forall|m: int, f: int|
            0 <= m < mel_bins && 0 <= f < window.padded_frames ==> #[trigger] chunked(
                window,
                mel_bins,
            )[((f / 100) * mel_bins + m) * 100 + f % 100]
                == #[trigger] window.data_mel_major@[m * window.padded_frames + f],
        forall|m: int, f: int|
            0 <= m < mel_bins && 0 <= f < window.padded_frames ==> 0 <= #[trigger] (((f / 100)
                * mel_bins + m) * 100 + f % 100) < window.data_mel_major@.len(),
{
    let padded = window.padded_frames as int;
    let chunks = padded / 100;
    assert(chunks * mel_bins * 100 == mel_bins * padded) by (nonlinear_arith)
        requires
            chunks * 100 == padded,
    ;
    assert(chunks * mel_bins >= 0) by (nonlinear_arith)
        requires
            chunks >= 0,
            mel_bins >= 0,
    ;
    assert forall|m: int, f: int| 0 <= m < mel_bins && 0 <= f < padded implies 0 <= #[trigger] (((f
        / 100) * mel_bins + m) * 100 + f % 100) < window.data_mel_major@.len() && chunked(
        window,
        mel_bins,
    )[((f / 100) * mel_bins + m) * 100 + f % 100] == window.data_mel_major@[m * padded + f] by {
        lemma_row_place(chunks, mel_bins, f / 100, m);
        let row = (f / 100) * mel_bins + m;
        lemma_row_place(chunks * mel_bins, 100, row, f % 100);
    }
    assert forall|m: int, f: int| 0 <= m < mel_bins && 0 <= f < padded implies #[trigger] chunked(
        window,
        mel_bins,
    )[((f / 100) * mel_bins + m) * 100 + f % 100] == #[trigger] window.data_mel_major@[m
        * window.padded_frames + f] by {
        assert(0 <= ((f / 100) * mel_bins + m) * 100 + f % 100);
    }
}

/// What is wrong with the sizes of flattened features, if anything is.
pub open spec fn flatten_problem<T>(map: ConvFeatureMap<T>) -> Option<GraphError> {
    let flattened = map.channels * map.height;
    let tokens = map.batch_count * map.width;
    if flattened > usize::MAX {
        Some(GraphError::FlattenedDim)
    } else if tokens > usize::MAX {
        Some(GraphError::TokenCount)
    } else if tokens * flattened > usize::MAX {
        Some(GraphError::FlattenedOutput)
    } else {
        None
    }
}

/// The values of a map by column: for each column of each batch, the channels with their rows.
pub open spec fn flattened<T>(map: ConvFeatureMap<T>) -> Seq<T> {
    Seq::new(
        ((map.batch_count * map.width) * (map.channels * map.height)) as nat,
        |i: int|
            {
                let flat = map.channels * map.height;
                let token = i / flat;
                let within = i % flat;
                map.at(
                    token / map.width as int,
                    within % map.height as int,
                    token % map.width as int,
                    within / map.height as int,
                )
            },
    )
}

proof fn lemma_map_place<T>(map: ConvFeatureMap<T>, batch: int, y: int, x: int, channel: int)
    requires
        map.wf(),
        0 <= batch < map.batch_count,
        0 <= y < map.height,
        0 <= x < map.width,
        0 <= channel < map.channels,
    ensures
        0 <= map.place(batch, y, x, channel) < map.data@.len(),
        0 <= batch * map.height + y < map.batch_count * map.height,
        0 <= (batch * map.height + y) * map.width + x < map.batch_count * map.height * map.width,
        map.batch_count * map.height <= map.data@.len(),
        map.batch_count * map.height * map.width <= map.data@.len(),
{
    let row = batch * map.height + y;
    let column = row * map.width + x;
    lemma_row_place(map.batch_count as int, map.height as int, batch, y);
    lemma_row_place(map.batch_count * map.height, map.width as int, row, x);
    lemma_row_place(
        map.batch_count * map.height * map.width,
        map.channels as int,
        column,
        channel,
    );
    let rows = map.batch_count * map.height;
    let columns = rows * map.width;
    assert(columns <= columns * map.channels) by (nonlinear_arith)
        requires
            columns >= 0,
            map.channels >= 1,
    ;
    assert(rows <= rows * map.width) by (nonlinear_arith)
        requires
            rows >= 0,
            map.width >= 1,
    ;
}

/// Flattens a feature map into one row for each column of each batch.
pub fn flatten_conv_features<T: Copy>(features: &ConvFeatureMap<T>) -> (result: Result<
    Vec<T>,
    GraphError,
>)
    requires
        features.wf(),
    ensures
        match result {
            Ok(values) => {
                &&& flatten_problem(*features) is None
                &&& values@ == flattened(*features)
                &&& values@.len() == features.data@.len()
            },
            Err(error) => flatten_problem(*features) == Some(error),
        },
{
    let flat: usize = match features.channels.checked_mul(features.height) {
        Some(flat) => flat,
        None => return Err(GraphError::FlattenedDim),
    };
    let tokens: usize = match features.batch_count.checked_mul(features.width) {
        Some(tokens) => tokens,
        None => return Err(GraphError::TokenCount),
    };
    let output_len: usize = match tokens.checked_mul(flat) {
        Some(len) => len,
        None => return Err(GraphError::FlattenedOutput),
    };
    assert(features.data@.len() == features.data.len());
    let ghost target = flattened(*features);
    let mut out: Vec<T> = Vec::new();
    let mut i: usize = 0;
    while i < output_len
        invariant
            i <= output_len,
            features.wf(),
            features.data@.len() <= usize::MAX,
            flat == features.channels * features.height,
            tokens == features.batch_count * features.width,
            output_len == tokens * flat,
            target == flattened(*features),
            out@ == target.take(i as int),
        decreases output_len - i,
    {
        proof {
            lemma_place_row(tokens as int, flat as int, i as int);
            lemma_place_row(
                features.batch_count as int,
                features.width as int,
                i as int / flat as int,
            );
            lemma_place_row(
                features.channels as int,
                features.height as int,
                i as int % flat as int,
            );
        }
        let token: usize = i / flat;
        let within: usize = i % flat;
        let batch: usize = token / features.width;
        let x: usize = token % features.width;
        let channel: usize = within / features.height;
        let y: usize = within % features.height;
        proof {
            lemma_map_place(*features, batch as int, y as int, x as int, channel as int);
            assert(0 <= batch * features.height) by (nonlinear_arith);
            assert(0 <= (batch * features.height + y) * features.width) by (nonlinear_arith)
                requires
                    0 <= batch * features.height + y,
            ;
            assert(0 <= ((batch * features.height + y) * features.width + x) * features.channels)
                by (nonlinear_arith)
                requires
                    0 <= (batch * features.height + y) * features.width + x,
            ;
        }
        let row: usize = batch * features.height + y;
        let column: usize = row * features.width + x;
        let source: usize = column * features.channels + channel;
        out.push(features.data[source]);
        assert(target[i as int] == features.data@[source as int]);
        assert(out@ =~= target.take(i + 1));
        i = i + 1;
    }
    assert(target.take(target.len() as int) =~= target);
    proof {
        features_are_flattened_without_loss(*features);
    }
    Ok(out)
}

/// Flattening loses nothing and repeats nothing: the value of every channel at every row and
/// column of a batch stands in the token of that batch and column, channel by channel and row by
/// row, and there are as many values as before.
pub proof fn features_are_flattened_without_loss<T>(map: ConvFeatureMap<T>)
    requires
        map.wf(),
    ensures
        flattened(map).len() == map.data@.len(),
        forall|b: int, y: int, x: int, c: int|
            0 <= b < map.batch_count && 0 <= y < map.height && 0 <= x < map.width && 0 <= c
                < map.channels ==> flattened(map)[(b * map.width + x) * (map.channels
                * map.height) + (c * map.height + y)] == #[trigger] map.data@[((b * map.height + y)
                * map.width + x) * map.channels + c],
{
    let flat = map.channels * map.height;
    let tokens = map.batch_count * map.width;
    assert(tokens * flat == map.batch_count * map.height * map.width * map.channels)
        by (nonlinear_arith)
        requires
            flat == map.channels * map.height,
            tokens == map.batch_count * map.width,
    ;
    assert forall|b: int, y: int, x: int, c: int|
        0 <= b < map.batch_count && 0 <= y < map.height && 0 <= x < map.width && 0 <= c
            < map.channels implies flattened(map)[(b * map.width + x) * (map.channels
        * map.height) + (c * map.height + y)] == #[trigger] map.data@[((b * map.height + y)
        * map.width + x) * map.channels + c] by {
        lemma_row_place(map.batch_count as int, map.width as int, b, x);
        lemma_row_place(map.channels as int, map.height as int, c, y);
        lemma_row_place(tokens, flat, b * map.width + x, c * map.height + y);
    }
}

/// The value under a place of the kernel at an output position: padding outside the map.
pub open spec fn under_kernel<T>(
    map: ConvFeatureMap<T>,
    padding: T,
    batch: int,
    out_y: int,
    out_x: int,
    channel: int,
    kernel_y: int,
    kernel_x: int,
) -> T {
    let y = out_y * 2 + kernel_y - 1;
    let x = out_x * 2 + kernel_x - 1;
    if 0 <= y < map.height && 0 <= x < map.width {
        map.at(batch, y, x, channel)
    } else {
        padding
    }
}

/// The patches of a map: for each output position the values under the kernel, channel by channel
/// and row by row.
pub struct ConvPatches<'a, T> {
    pub map: &'a ConvFeatureMap<T>,
    pub padding: T,
    pub out_width: usize,
    pub out_height: usize,
}

impl<'a, T> ConvPatches<'a, T> {
    /// The width and height are those of the output.
    pub open spec fn wf(&self) -> bool {
        &&& self.map.wf()
        &&& self.out_width == conv_size(self.map.width as int)
        &&& self.out_height == conv_size(self.map.height as int)
        &&& 0 < self.map.width <= usize::MAX - 2
        &&& 0 < self.map.height <= usize::MAX - 2
        &&& self.out_width * self.out_height <= usize::MAX
    }

    /// The value at a place of a patch.
    pub open spec fn value(&self, index: int, place: int) -> T {
        let spatial = self.out_width * self.out_height;
        let position = index % spatial;
        under_kernel(
            *self.map,
            self.padding,
            index / spatial,
            position / self.out_width as int,
            position % self.out_width as int,
            place / 9,
            (place % 9) / 3,
            place % 3,
        )
    }
}

impl<'a, T: Copy + Sync> RowSource<T> for ConvPatches<'a, T> {
    open spec fn ready(&self, index: int, width: int) -> bool {
        &&& self.wf()
        &&& width == self.map.channels * 9
        &&& 0 <= index < self.map.batch_count * (self.out_width * self.out_height)
    }

    open spec fn row(&self, index: int) -> Seq<T> {
        Seq::new((self.map.channels * 9) as nat, |place: int| self.value(index, place))
    }

    fn fill(&self, index: usize, row: &mut [T]) {
        let map = self.map;
        let spatial: usize = self.out_width * self.out_height;
        proof {
            lemma_place_row(map.batch_count as int, spatial as int, index as int);
            assert(self.out_width * self.out_height == self.out_height * self.out_width)
                by (nonlinear_arith);
            lemma_place_row(
                self.out_height as int,
                self.out_width as int,
                index as int % spatial as int,
            );
            assert(map.data@.len() == map.data.len());
        }
        let batch: usize = index / spatial;
        let position: usize = index % spatial;
        let out_y: usize = position / self.out_width;
        let out_x: usize = position % self.out_width;
        let ghost n = map.channels * 9;
        let mut place: usize = 0;
        while place < row.len()
            invariant
                self.wf(),
                map == self.map,
                map.data@.len() <= usize::MAX,
                0 < spatial == self.out_width * self.out_height,
                batch == index as int / spatial as int,
                position == index as int % spatial as int,
                batch < map.batch_count,
                out_y == position as int / self.out_width as int,
                out_x == position as int % self.out_width as int,
                out_y < self.out_height,
                out_x < self.out_width,
                row@.len() == n == map.channels * 9,
                place <= n,
                forall|j: int| 0 <= j < place ==> #[trigger] row@[j] == self.value(index as int, j),
            decreases n - place,
        {
            let channel: usize = place / 9;
            let kernel_y: usize = place % 9 / CONV_KERNEL;
            let kernel_x: usize = place % CONV_KERNEL;
            let padded_y: usize = out_y * CONV_STRIDE + kernel_y;
            let padded_x: usize = out_x * CONV_STRIDE + kernel_x;
            let outside = padded_y < CONV_PADDING || padded_x < CONV_PADDING || padded_y
                - CONV_PADDING >= map.height || padded_x - CONV_PADDING >= map.width;
            let value: T = if outside {
                self.padding
            } else {
                let y: usize = padded_y - CONV_PADDING;
                let x: usize = padded_x - CONV_PADDING;
                proof {
                    lemma_map_place(*map, batch as int, y as int, x as int, channel as int);
                    assert(0 <= batch * map.height) by (nonlinear_arith);
                    assert(0 <= (batch * map.height + y) * map.width) by (nonlinear_arith)
                        requires
                            0 <= batch * map.height + y,
                    ;
                    assert(0 <= ((batch * map.height + y) * map.width + x) * map.channels)
                        by (nonlinear_arith)
                        requires
                            0 <= (batch * map.height + y) * map.width + x,
                    ;
                }
                let line: usize = batch * map.height + y;
                let column: usize = line * map.width + x;
                map.data[column * map.channels + channel]
            };
            assert(value == self.value(index as int, place as int));
            row[place] = value;
            place = place + 1;
        }
        assert(row@ =~= self.row(index as int));
    }
}

/// What a convolution layer is computed with.
#[derive(Clone, Copy, Debug, PartialEq, Eq, Structural)]
pub struct ConvolutionShape {
    pub input_channels: usize,
    pub output_channels: usize,
    pub kernel_len: usize,
    pub bias_len: usize,
}

/// What is wrong with a convolution of a map, if anything is.
pub open spec fn convolution_problem<T>(map: ConvFeatureMap<T>, weights: ConvolutionShape) -> Option<
    GraphError,
> {
    let kernel = weights.input_channels * 9;
    if map.channels != weights.input_channels {
        Some(GraphError::Channels { got: map.channels, wanted: weights.input_channels })
    } else if kernel > usize::MAX {
        Some(GraphError::KernelOverflow)
    } else if weights.output_channels * kernel > usize::MAX {
        Some(GraphError::KernelWeightOverflow)
    } else if weights.kernel_len != weights.output_channels * kernel || weights.bias_len
        != weights.output_channels {
        Some(GraphError::KernelShape)
    } else if map.width == 0 || map.width > usize::MAX - 2 {
        Some(GraphError::ConvolutionInput(map.width))
    } else if map.height == 0 || map.height > usize::MAX - 2 {
        Some(GraphError::ConvolutionInput(map.height))
    } else if !map_fits(
        map.batch_count as int,
        conv_size(map.width as int),
        conv_size(map.height as int),
        weights.output_channels as int,
    ) {
        Some(GraphError::MapOverflow)
    } else {
        None
    }
}

/// The sizes of the output of a convolution.
#[derive(Clone, Copy, Debug, PartialEq, Eq, Structural)]
pub struct ConvolutionPlan {
    pub output_width: usize,
    pub output_height: usize,
    pub output_len: usize,
    pub kernel_elements: usize,
}

/// Checks a convolution of a map and sizes its output.
pub fn plan_convolution<T>(input: &ConvFeatureMap<T>, weights: ConvolutionShape) -> (result: Result<
    ConvolutionPlan,
    GraphError,
>)
    ensures
        match result {
            Ok(plan) => {
                &&& convolution_problem(*input, weights) is None
                &&& plan.output_width == conv_size(input.width as int)
                &&& plan.output_height == conv_size(input.height as int)
                &&& plan.output_len == input.batch_count * plan.output_width * plan.output_height
                    * weights.output_channels
                &&& plan.kernel_elements == input.channels * 9
            },
            Err(error) => convolution_problem(*input, weights) == Some(error),
        },
{
    if input.channels != weights.input_channels {
        return Err(
            GraphError::Channels { got: input.channels, wanted: weights.input_channels },
        );
    }
    let kernel_elements: usize = match weights.input_channels.checked_mul(
        CONV_KERNEL * CONV_KERNEL,
    ) {
        Some(n) => n,
        None => return Err(GraphError::KernelOverflow),
    };
    let expected: usize = match weights.output_channels.checked_mul(kernel_elements) {
        Some(n) => n,
        None => return Err(GraphError::KernelWeightOverflow),
    };
    if weights.kernel_len != expected || weights.bias_len != weights.output_channels {
        return Err(GraphError::KernelShape);
    }
    let output_width: usize = match conv_output_size(input.width) {
        Ok(n) => n,
        Err(error) => return Err(GraphError::ConvolutionInput(error.0)),
    };
    let output_height: usize = match conv_output_size(input.height) {
        Ok(n) => n,
        Err(error) => return Err(GraphError::ConvolutionInput(error.0)),
    };
    match checked_feature_map_len(
        input.batch_count,
        output_width,
        output_height,
        weights.output_channels,
    ) {
        Ok(output_len) => Ok(
            ConvolutionPlan { output_width, output_height, output_len, kernel_elements },
        ),
        Err(error) => Err(error),
    }
}

/// The patches of a convolution, one row for each output position; the kernels are then applied
/// row by row. None where their number is not a machine number.
pub fn convolution_patches<T: Copy + Send + Sync>(
    input: &ConvFeatureMap<T>,
    plan: ConvolutionPlan,
    padding: T,
) -> (patches: Option<Vec<T>>)
    requires
        input.wf(),
        0 < input.width <= usize::MAX - 2,
        0 < input.height <= usize::MAX - 2,
        plan.output_width == conv_size(input.width as int),
        plan.output_height == conv_size(input.height as int),
        plan.kernel_elements == input.channels * 9,
        input.batch_count * plan.output_width * plan.output_height <= usize::MAX,
    ensures
        match patches {
            Some(values) => {
                let rows = input.batch_count * (plan.output_width * plan.output_height);
                &&& values@.len() == rows * (input.channels * 9)
                &&& forall|i: int, p: int|
                    0 <= i < rows && 0 <= p < input.channels * 9 ==> values@[i * (input.channels
                        * 9) + p] == #[trigger] (ConvPatches {
                        map: input,
                        padding,
                        out_width: plan.output_width,
                        out_height: plan.output_height,
                    }).value(i, p)
            },
            None => input.batch_count * (plan.output_width * plan.output_height) * (input.channels
                * 9) > usize::MAX,
        },
{
    if input.batch_count == 0 || input.channels == 0 {
        let empty: Vec<T> = Vec::new();
        proof {
            let rows = input.batch_count * (plan.output_width * plan.output_height);
            assert(rows * (input.channels * 9) == 0) by (nonlinear_arith)
                requires
                    input.batch_count == 0 || input.channels == 0,
                    rows == input.batch_count * (plan.output_width * plan.output_height),
            ;
            assert(input.batch_count == 0 ==> rows == 0) by (nonlinear_arith)
                requires
                    rows == input.batch_count * (plan.output_width * plan.output_height),
            ;
        }
        return Some(empty);
    }
    proof {
        assert(input.batch_count * (plan.output_width * plan.output_height) == input.batch_count
            * plan.output_width * plan.output_height) by (nonlinear_arith);
        assert(plan.output_width * plan.output_height <= input.batch_count * (plan.output_width
            * plan.output_height)) by (nonlinear_arith)
            requires
                input.batch_count >= 1,
                plan.output_width >= 0,
                plan.output_height >= 0,
        ;
        assert(plan.output_width * plan.output_height >= 0) by (nonlinear_arith);
    }
    let spatial: usize = plan.output_width * plan.output_height;
    let rows: usize = input.batch_count * spatial;
    let width: usize = plan.kernel_elements;
    let len: usize = match rows.checked_mul(width) {
        Some(len) => len,
        None => return None,
    };
    let source = ConvPatches {
        map: input,
        padding,
        out_width: plan.output_width,
        out_height: plan.output_height,
    };
    let mut values: Vec<T> = crate::values::filled(len, padding);
    proof {
        lemma_fundamental_div_mod_converse(len as int, width as int, rows as int, 0);
    }
    par_fill_rows(&mut values, width, &source);
    proof {
        assert forall|i: int, p: int|
            0 <= i < rows && 0 <= p < input.channels * 9 implies values@[i * (input.channels * 9)
            + p] == #[trigger] source.value(i, p) by {
            assert(source.row(i)[p] == source.value(i, p));
        }
    }
    Some(values)
}

/// What stands in the patches: at every output position of every batch, for every channel and
/// every place of the three by three kernel, the value of the map that the kernel lies on when it
/// moves two steps at a time from one place outside the map, or the padding outside it.
pub proof fn patches_lie_under_the_kernel<T>(
    patches: ConvPatches<T>,
    b: int,
    out_y: int,
    out_x: int,
    c: int,
    ky: int,
    kx: int,
)
    requires
        patches.wf(),
        0 <= b < patches.map.batch_count,
        0 <= out_y < patches.out_height,
        0 <= out_x < patches.out_width,
        0 <= c < patches.map.channels,
        0 <= ky < 3,
        0 <= kx < 3,
    ensures
        ({
            let map = patches.map;
            let y = 2 * out_y + ky - 1;
            let x = 2 * out_x + kx - 1;
            patches.value(
                b * (patches.out_width * patches.out_height) + (out_y * patches.out_width + out_x),
                c * 9 + ky * 3 + kx,
            ) == if 0 <= y < map.height && 0 <= x < map.width {
                map.data@[((b * map.height + y) * map.width + x) * map.channels + c]
            } else {
                patches.padding
            }
        }),
        2 * patches.out_width - 1 <= patches.map.width <= 2 * patches.out_width,
        2 * patches.out_height - 1 <= patches.map.height <= 2 * patches.out_height,
{
    let spatial = patches.out_width * patches.out_height;
    assert(spatial == patches.out_height * patches.out_width) by (nonlinear_arith)
        requires
            spatial == patches.out_width * patches.out_height,
    ;
    lemma_row_place(patches.out_height as int, patches.out_width as int, out_y, out_x);
    lemma_row_place(
        patches.map.batch_count as int,
        spatial,
        b,
        out_y * patches.out_width + out_x,
    );
    let place = c * 9 + ky * 3 + kx;
    assert(place / 9 == c && place % 9 == ky * 3 + kx && place % 3 == kx);
}

/// Each value narrowed to the type in which it is multiplied with a matrix.
pub open spec fn narrowed(value: u32, ttype: i32) -> int {
    if ttype == GGML_TYPE_F16 {
        half_widened(activation_half(value) as u16)
    } else if ttype == GGML_TYPE_BF16 {
        activation_bfloat(value)
    } else {
        value as int
    }
}

/// Narrows values to the type in which they are multiplied with a matrix.
pub fn narrow_activations(input: &[u32], ttype: i32) -> (out: Vec<u32>)
    ensures
        out@.len() == input@.len(),
        forall|i: int| 0 <= i < out@.len() ==> #[trigger] out@[i] == narrowed(input@[i], ttype),
{
    let mut out: Vec<u32> = Vec::new();
    let mut i: usize = 0;
    while i < input.len()
        invariant
            i == out@.len(),
            i <= input@.len(),
            forall|j: int| 0 <= j < i ==> #[trigger] out@[j] == narrowed(input@[j], ttype),
        decreases input.len() - i,
    {
        let value: u32 = if ttype == GGML_TYPE_F16 {
            round_to_f16(input[i])
        } else if ttype == GGML_TYPE_BF16 {
            round_to_bf16(input[i])
        } else {
            input[i]
        };
        out.push(value);
        i = i + 1;
    }
    out
}

/// What a convolution computes on: values narrowed to half precision, unless its kernels are
/// bfloat16.
pub fn convolution_activations(input: &[u32], kernel_type: i32) -> (out: Vec<u32>)
    ensures
        out@.len() == input@.len(),
        forall|i: int|
            0 <= i < out@.len() ==> #[trigger] out@[i] == if kernel_type == GGML_TYPE_BF16 {
                input@[i] as int
            } else {
                narrowed(input@[i], GGML_TYPE_F16)
            },
{
    if kernel_type == GGML_TYPE_BF16 {
        let mut out: Vec<u32> = Vec::new();
        crate::values::append_range(&mut out, input, 0, input.len());
        assert(out@ =~= input@);
        out
    } else {
        narrow_activations(input, GGML_TYPE_F16)
    }
}

/// The output of a stage of the encoder: rows of the embedding dimension.
#[derive(Debug)]
pub struct AudioEncoderFrontendOutput<T> {
    pub token_count: usize,
    pub embedding_dim: usize,
    pub data_token_major: Vec<T>,
}

/// Checks that the convolutions left the right number of columns.
pub fn check_chunk_tokens<T>(features: &ConvFeatureMap<T>) -> (result: Result<(), GraphError>)
    ensures
        result == if features.width == TOKENS_PER_CHUNK {
            Ok::<(), GraphError>(())
        } else {
            Err(GraphError::ChunkTokens { got: features.width })
        },
{
    if features.width != TOKENS_PER_CHUNK {
        Err(GraphError::ChunkTokens { got: features.width })
    } else {
        Ok(())
    }
}

/// What is wrong with the projection of flattened features, if anything is.
pub open spec fn projection_problem<T>(map: ConvFeatureMap<T>, projection: QuantizedTensor) -> Option<
    GraphError,
> {
    let flattened = map.channels * map.height;
    let tokens = map.batch_count * map.width;
    if flattened > usize::MAX {
        Some(GraphError::FlattenedDim)
    } else if projection.cols != flattened {
        Some(GraphError::ProjectionInputs { wanted: projection.cols, got: flattened as usize })
    } else if tokens > usize::MAX {
        Some(GraphError::TokenCount)
    } else if tokens * flattened > usize::MAX {
        Some(GraphError::FlattenedOutput)
    } else if tokens * projection.rows > usize::MAX {
        Some(GraphError::ProjectionOutput)
    } else {
        None
    }
}

/// Flattens features for their projection: the rows to project, their number, and the number of
/// values of the output.
pub fn plan_projection<T: Copy>(features: &ConvFeatureMap<T>, projection: QuantizedTensor)
    -> (result: Result<(Vec<T>, usize, usize), GraphError>)
    requires
        features.wf(),
    ensures
        match result {
            Ok((rows, tokens, output_len)) => {
                &&& projection_problem(*features, projection) is None
                &&& rows@ == flattened(*features)
                &&& tokens == features.batch_count * features.width
                &&& output_len == tokens * projection.rows
            },
            Err(error) => projection_problem(*features, projection) == Some(error),
        },
{
    let flat: usize = match features.channels.checked_mul(features.height) {
        Some(flat) => flat,
        None => return Err(GraphError::FlattenedDim),
    };
    if projection.cols != flat {
        return Err(GraphError::ProjectionInputs { wanted: projection.cols, got: flat });
    }
    let tokens: usize = match features.batch_count.checked_mul(features.width) {
        Some(tokens) => tokens,
        None => return Err(GraphError::TokenCount),
    };
    let rows = match flatten_conv_features(features) {
        Ok(rows) => rows,
        Err(error) => return Err(error),
    };
    match tokens.checked_mul(projection.rows) {
        Some(output_len) => Ok((rows, tokens, output_len)),
        None => Err(GraphError::ProjectionOutput),
    }
}

/// What is wrong with adding the position table to a stage, if anything is.
pub open spec fn positions_problem(
    tokens: usize,
    dim: usize,
    values: int,
    table_values: int,
    table_rows: usize,
) -> Option<GraphError> {
    if tokens * dim > usize::MAX {
        Some(GraphError::PositionInputOverflow)
    } else if dim == 0 || values != tokens * dim {
        Some(GraphError::PositionInputShape)
    } else if tokens == 0 || tokens % 13 != 0 {
        Some(GraphError::PositionTokens { got: tokens })
    } else if table_rows < TOKENS_PER_CHUNK {
        Some(GraphError::PositionRows { got: table_rows })
    } else if table_rows * dim > usize::MAX {
        Some(GraphError::PositionTableOverflow)
    } else if table_values != table_rows * dim {
        Some(
            GraphError::PositionTableValues {
                got: table_values as usize,
                wanted: (table_rows * dim) as usize,
            },
        )
    } else {
        None
    }
}

/// The row of the position table of each token: the positions start again with each chunk.
pub fn plan_chunk_positions<T>(
    output: &AudioEncoderFrontendOutput<T>,
    position_embeddings: &Vec<T>,
    position_count: usize,
) -> (result: Result<Vec<usize>, GraphError>)
    ensures
        match result {
            Ok(rows) => {
                &&& positions_problem(
                    output.token_count,
                    output.embedding_dim,
                    output.data_token_major@.len() as int,
                    position_embeddings@.len() as int,
                    position_count,
                ) is None
                &&& rows@.len() == output.token_count
                &&& forall|t: int| 0 <= t < rows@.len() ==> #[trigger] rows@[t] == t % 13
            },
            Err(error) => positions_problem(
                output.token_count,
                output.embedding_dim,
                output.data_token_major@.len() as int,
                position_embeddings@.len() as int,
                position_count,
            ) == Some(error),
        },
{
    let tokens: usize = output.token_count;
    let dim: usize = output.embedding_dim;
    let expected: usize = match tokens.checked_mul(dim) {
        Some(n) => n,
        None => return Err(GraphError::PositionInputOverflow),
    };
    if dim == 0 || output.data_token_major.len() != expected {
        return Err(GraphError::PositionInputShape);
    }
    if tokens == 0 || tokens % TOKENS_PER_CHUNK != 0 {
        return Err(GraphError::PositionTokens { got: tokens });
    }
    if position_count < TOKENS_PER_CHUNK {
        return Err(GraphError::PositionRows { got: position_count });
    }
    let table: usize = match position_count.checked_mul(dim) {
        Some(n) => n,
        None => return Err(GraphError::PositionTableOverflow),
    };
    if position_embeddings.len() != table {
        return Err(
            GraphError::PositionTableValues { got: position_embeddings.len(), wanted: table },
        );
    }
    let mut rows: Vec<usize> = Vec::new();
    let mut token: usize = 0;
    while token < tokens
        invariant
            token == rows@.len(),
            token <= tokens,
            forall|t: int| 0 <= t < rows@.len() ==> #[trigger] rows@[t] == t % 13,
        decreases tokens - token,
    {
        rows.push(token % TOKENS_PER_CHUNK);
        token = token + 1;
    }
    Ok(rows)
}

/// The shapes of the projector into language embeddings.
#[derive(Clone, Copy, Debug, PartialEq, Eq, Structural)]
pub struct ProjectorShape {
    pub up: QuantizedTensor,
    pub up_bias_len: usize,
    pub down: QuantizedTensor,
    pub down_bias_len: usize,
}

/// What is wrong with the projection into language embeddings, if anything is.
pub open spec fn projector_problem(
    tokens: usize,
    dim: usize,
    values: int,
    weights: ProjectorShape,
    wanted_dim: usize,
) -> Option<GraphError> {
    if tokens * wanted_dim > usize::MAX {
        Some(GraphError::ProjectorInputOverflow)
    } else if wanted_dim == 0 || tokens == 0 || dim != wanted_dim || values != tokens * wanted_dim
        || weights.up.cols != wanted_dim || weights.up.rows == 0 || weights.up.rows
        != weights.up_bias_len || weights.down.cols != weights.up.rows || weights.down.rows == 0
        || weights.down.rows != weights.down_bias_len {
        Some(GraphError::ProjectorShape)
    } else if tokens * weights.down.rows > usize::MAX {
        Some(GraphError::ProjectorOutputOverflow)
    } else {
        None
    }
}

/// Checks the projection into language embeddings and sizes its output.
pub fn plan_projector<T>(
    frontend: &AudioEncoderFrontendOutput<T>,
    weights: ProjectorShape,
    expected_input_dim: usize,
) -> (result: Result<usize, GraphError>)
    ensures
        match result {
            Ok(output_len) => {
                &&& projector_problem(
                    frontend.token_count,
                    frontend.embedding_dim,
                    frontend.data_token_major@.len() as int,
                    weights,
                    expected_input_dim,
                ) is None
                &&& output_len == frontend.token_count * weights.down.rows
            },
            Err(error) => projector_problem(
                frontend.token_count,
                frontend.embedding_dim,
                frontend.data_token_major@.len() as int,
                weights,
                expected_input_dim,
            ) == Some(error),
        },
{
    let expected: usize = match frontend.token_count.checked_mul(expected_input_dim) {
        Some(n) => n,
        None => return Err(GraphError::ProjectorInputOverflow),
    };
    if expected_input_dim == 0 || frontend.token_count == 0 || frontend.embedding_dim
        != expected_input_dim || frontend.data_token_major.len() != expected || weights.up.cols
        != expected_input_dim || weights.up.rows == 0 || weights.up.rows != weights.up_bias_len
        || weights.down.cols != weights.up.rows || weights.down.rows == 0 || weights.down.rows
        != weights.down_bias_len {
        return Err(GraphError::ProjectorShape);
    }
    match frontend.token_count.checked_mul(weights.down.rows) {
        Some(n) => Ok(n),
        None => Err(GraphError::ProjectorOutputOverflow),
    }
}

/// Whether all values before a place are finite.
pub open spec fn finite_before(values: Seq<u32>, place: int) -> bool {
    forall|i: int| 0 <= i < place ==> is_finite_bits(#[trigger] values[i])
}

/// The place of the first value that is not finite.
pub fn first_non_finite(values: &[u32]) -> (place: Option<usize>)
    ensures
        match place {
            Some(i) => i < values@.len() && !is_finite_bits(values@[i as int]) && finite_before(
                values@,
                i as int,
            ),
            None => finite_before(values@, values@.len() as int),
        },
{
    let mut i: usize = 0;
    while i < values.len()
        invariant
            i <= values@.len(),
            finite_before(values@, i as int),
        decreases values.len() - i,
    {
        if !finite_bits(values[i]) {
            return Some(i);
        }
        i = i + 1;
    }
    None
}

/// The rows of a table: those that are whole.
pub fn split_rows<T: Copy>(values: &[T], width: usize) -> (rows: Vec<Vec<T>>)
    requires
        width > 0,
    ensures
        rows@.len() == values@.len() as int / width as int,
        forall|i: int|
            0 <= i < rows@.len() ==> (#[trigger] rows@[i])@ == values@.subrange(
                i * width,
                i * width + width,
            ),
{
    let mut rows: Vec<Vec<T>> = Vec::new();
    let count: usize = values.len() / width;
    let mut row: usize = 0;
    let mut start: usize = 0;
    proof {
        lemma_fundamental_div_mod(values@.len() as int, width as int);
        assert(width * count == count * width) by (nonlinear_arith);
        assert(0 * width == 0);
    }
    while row < count
        invariant
            width > 0,
            row == rows@.len(),
            row <= count,
            start == row * width,
            count * width <= values@.len() <= usize::MAX,
            forall|i: int|
                0 <= i < rows@.len() ==> (#[trigger] rows@[i])@ == values@.subrange(
                    i * width,
                    i * width + width,
                ),
        decreases count - row,
    {
        assert(row * width + width <= count * width) by (nonlinear_arith)
            requires
                row + 1 <= count,
        ;
        let mut one: Vec<T> = Vec::new();
        crate::values::append_range(&mut one, values, start, start + width);
        assert(one@ =~= values@.subrange(row * width, row * width + width));
        rows.push(one);
        assert((row + 1) * width == row * width + width) by (nonlinear_arith);
        start = start + width;
        row = row + 1;
    }
    rows
}

/// What is wrong with the input of the transformer, if anything is.
pub open spec fn transformer_problem(
    tokens: usize,
    dim: usize,
    values: int,
    layers: usize,
    config: Qwen3AsrAudioConfig,
) -> Option<GraphError> {
    if tokens * config.embedding_dim > usize::MAX {
        Some(GraphError::TransformerInputOverflow)
    } else if dim != config.embedding_dim || tokens == 0 || values != tokens
        * config.embedding_dim {
        Some(GraphError::TransformerShape)
    } else if layers != config.layer_count {
        Some(GraphError::TransformerLayers { got: layers, wanted: config.layer_count })
    } else if tokens * config.head_dim > usize::MAX {
        Some(GraphError::HeadOverflow)
    } else if config.head_count * (tokens * config.head_dim) > usize::MAX {
        Some(GraphError::AttentionOverflow)
    } else {
        None
    }
}

/// Checks the input of the transformer: the number of values of a stage, the distance between
/// heads, and the number of values of all heads.
pub fn plan_transformer<T>(
    output: &AudioEncoderFrontendOutput<T>,
    layers: usize,
    config: &Qwen3AsrAudioConfig,
) -> (result: Result<(usize, usize, usize), GraphError>)
    ensures
        match result {
            Ok((token_values, head_stride, attention_values)) => {
                &&& transformer_problem(
                    output.token_count,
                    output.embedding_dim,
                    output.data_token_major@.len() as int,
                    layers,
                    *config,
                ) is None
                &&& token_values == output.token_count * config.embedding_dim
                &&& head_stride == output.token_count * config.head_dim
                &&& attention_values == config.head_count * head_stride
            },
            Err(error) => transformer_problem(
                output.token_count,
                output.embedding_dim,
                output.data_token_major@.len() as int,
                layers,
                *config,
            ) == Some(error),
        },
{
    let token_values: usize = match output.token_count.checked_mul(config.embedding_dim) {
        Some(n) => n,
        None => return Err(GraphError::TransformerInputOverflow),
    };
    if output.embedding_dim != config.embedding_dim || output.token_count == 0
        || output.data_token_major.len() != token_values {
        return Err(GraphError::TransformerShape);
    }
    if layers != config.layer_count {
        return Err(GraphError::TransformerLayers { got: layers, wanted: config.layer_count });
    }
    let head_stride: usize = match output.token_count.checked_mul(config.head_dim) {
        Some(n) => n,
        None => return Err(GraphError::HeadOverflow),
    };
    match config.head_count.checked_mul(head_stride) {
        Some(attention_values) => Ok((token_values, head_stride, attention_values)),
        None => Err(GraphError::AttentionOverflow),
    }
}

/// The values of heads, one head after the other, as the rows of tokens.
pub open spec fn by_token<T>(
    by_head: Seq<T>,
    tokens: int,
    head_count: int,
    head_dim: int,
) -> Seq<T> {
    Seq::new(
        (tokens * (head_count * head_dim)) as nat,
        |i: int|
            {
                let dim = head_count * head_dim;
                let token = i / dim;
                let within = i % dim;
                by_head[((within / head_dim) * tokens + token) * head_dim + within % head_dim]
            },
    )
}

/// Rearranges the values of heads into the rows of tokens.
pub fn heads_to_tokens<T: Copy>(
    by_head: &Vec<T>,
    tokens: usize,
    head_count: usize,
    head_dim: usize,
) -> (out: Vec<T>)
    requires
        by_head@.len() == head_count * tokens * head_dim,
        head_count * head_dim <= usize::MAX,
    ensures
        out@ == by_token(by_head@, tokens as int, head_count as int, head_dim as int),
{
    let dim: usize = head_count * head_dim;
    let len: usize = by_head.len();
    let ghost target = by_token(by_head@, tokens as int, head_count as int, head_dim as int);
    let mut out: Vec<T> = Vec::new();
    let mut i: usize = 0;
    proof {
        assert(tokens * (head_count * head_dim) == head_count * tokens * head_dim)
            by (nonlinear_arith);
    }
    while i < len
        invariant
            i <= len,
            len == by_head@.len() == head_count * tokens * head_dim == tokens * dim,
            dim == head_count * head_dim,
            target == by_token(by_head@, tokens as int, head_count as int, head_dim as int),
            out@ == target.take(i as int),
        decreases len - i,
    {
        proof {
            lemma_place_row(tokens as int, dim as int, i as int);
            lemma_place_row(head_count as int, head_dim as int, i as int % dim as int);
        }
        let token: usize = i / dim;
        let within: usize = i % dim;
        let head: usize = within / head_dim;
        let column: usize = within % head_dim;
        proof {
            lemma_row_place(head_count as int, tokens as int, head as int, token as int);
            lemma_row_place(
                head_count * tokens,
                head_dim as int,
                head * tokens + token,
                column as int,
            );
            assert(head_count * tokens <= head_count * tokens * head_dim) by (nonlinear_arith)
                requires
                    head_dim >= 1,
                    head_count >= 0,
                    tokens >= 0,
            ;
            assert(0 <= head * tokens) by (nonlinear_arith);
            assert(0 <= (head * tokens + token) * head_dim) by (nonlinear_arith)
                requires
                    0 <= head * tokens + token,
            ;
        }
        let row: usize = head * tokens + token;
        out.push(by_head[row * head_dim + column]);
        assert(target[i as int] == by_head@[row * head_dim + column]);
        assert(out@ =~= target.take(i + 1));
        i = i + 1;
    }
    assert(target.take(target.len() as int) =~= target);
    out
}

/// Rearranging heads loses nothing and repeats nothing: every value of every head stands in the
/// row of its token, behind those of the heads before, and there are as many values as before.
pub proof fn heads_are_rearranged_without_loss<T>(
    by_head: Seq<T>,
    tokens: int,
    head_count: int,
    head_dim: int,
)
    requires
        0 <= tokens,
        0 <= head_count,
        0 <= head_dim,
        by_head.len() == head_count * tokens * head_dim,
    ensures
        by_token(by_head, tokens, head_count, head_dim).len() == by_head.len(),
        forall|h: int, t: int, d: int|
            0 <= h < head_count && 0 <= t < tokens && 0 <= d < head_dim ==> by_token(
                by_head,
                tokens,
                head_count,
                head_dim,
            )[t * (head_count * head_dim) + (h * head_dim + d)] == #[trigger] by_head[(h * tokens
                + t) * head_dim + d],
{
    let dim = head_count * head_dim;
    assert(tokens * dim == head_count * tokens * head_dim) by (nonlinear_arith)
        requires
            dim == head_count * head_dim,
    ;
    assert forall|h: int, t: int, d: int|
        0 <= h < head_count && 0 <= t < tokens && 0 <= d < head_dim implies by_token(
        by_head,
        tokens,
        head_count,
        head_dim,
    )[t * (head_count * head_dim) + (h * head_dim + d)] == #[trigger] by_head[(h * tokens + t)
        * head_dim + d] by {
        lemma_row_place(head_count, head_dim, h, d);
        lemma_row_place(tokens, dim, t, h * head_dim + d);
    }
}

/// Whether the last norm fits a stage. The number of values is compared with a saturating product.
pub fn check_post_norm<T>(
    output: &AudioEncoderFrontendOutput<T>,
    weight_len: usize,
    bias_len: usize,
) -> (result: Result<(), GraphError>)
    ensures
        result == if output.embedding_dim == 0 || weight_len != output.embedding_dim || bias_len
            != output.embedding_dim || output.data_token_major@.len() != (if output.token_count
            * output.embedding_dim > usize::MAX {
            usize::MAX as int
        } else {
            output.token_count * output.embedding_dim
        }) {
            Err::<(), GraphError>(GraphError::PostNormShape)
        } else {
            Ok(())
        },
{
    let dim: usize = output.embedding_dim;
    if dim == 0 || weight_len != dim || bias_len != dim || output.data_token_major.len()
        != crate::gguf::saturating_product(output.token_count, dim) {
        return Err(GraphError::PostNormShape);
    }
    Ok(())
}

/// The number of tokens of the output of the convolutions.
pub fn conv_output_tokens(values: usize, dim: usize) -> (result: Result<usize, GraphError>)
    requires
        dim > 0,
    ensures
        result == if values == 0 || values as int % dim as int != 0 {
            Err::<usize, GraphError>(GraphError::FixtureValues { got: values, dim })
        } else if (values as int / dim as int) % 13 != 0 {
            Err(GraphError::FixtureTokens { got: (values as int / dim as int) as usize })
        } else {
            Ok((values as int / dim as int) as usize)
        },
{
    if values == 0 || values % dim != 0 {
        return Err(GraphError::FixtureValues { got: values, dim });
    }
    let tokens: usize = values / dim;
    if tokens % TOKENS_PER_CHUNK != 0 {
        return Err(GraphError::FixtureTokens { got: tokens });
    }
    Ok(tokens)
}

/// Whether the frames of a window can be encoded.
pub open spec fn window_plan_valid(window: PreparedAudioFeatureWindowPlan) -> bool {
    0 < window.valid_frames <= window.padded_frames && window.padded_frames % 100 == 0
}

/// The number of embeddings of the first `k` windows: thirteen for each chunk of a hundred padded
/// frames.
pub open spec fn planned_tokens(windows: Seq<PreparedAudioFeatureWindowPlan>, k: nat) -> Result<
    int,
    GraphError,
>
    decreases k,
{
    if k == 0 {
        Ok(0)
    } else {
        match planned_tokens(windows, (k - 1) as nat) {
            Err(error) => Err(error),
            Ok(count) => {
                let window = windows[k - 1];
                let tokens = window.padded_frames as int / 100 * 13;
                if !window_plan_valid(window) {
                    Err(
                        GraphError::WindowPlan {
                            start_frame: window.start_frame,
                            valid: window.valid_frames,
                            padded: window.padded_frames,
                        },
                    )
                } else if count + tokens > usize::MAX {
                    Err(GraphError::PlannedOverflow)
                } else {
                    Ok(count + tokens)
                }
            },
        }
    }
}

proof fn lemma_first_plan_error(windows: Seq<PreparedAudioFeatureWindowPlan>, k: nat, n: nat)
    requires
        k <= n,
        planned_tokens(windows, k) is Err,
    ensures
        planned_tokens(windows, n) == planned_tokens(windows, k),
    decreases n,
{
    if k < n {
        lemma_first_plan_error(windows, k, (n - 1) as nat);
    }
}

/// The number of embeddings of windows.
pub fn planned_embedding_tokens(windows: &[PreparedAudioFeatureWindowPlan]) -> (result: Result<
    usize,
    GraphError,
>)
    ensures
        windows@.len() == 0 ==> result == Err::<usize, GraphError>(GraphError::NoWindows),
        windows@.len() > 0 ==> match result {
            Ok(count) => planned_tokens(windows@, windows@.len()) == Ok::<int, GraphError>(
                count as int,
            ),
            Err(error) => planned_tokens(windows@, windows@.len()) == Err::<int, GraphError>(
                error,
            ),
        },
{
    if windows.len() == 0 {
        return Err(GraphError::NoWindows);
    }
    let mut count: usize = 0;
    let mut k: usize = 0;
    while k < windows.len()
        invariant
            k <= windows@.len(),
            planned_tokens(windows@, k as nat) == Ok::<int, GraphError>(count as int),
        decreases windows.len() - k,
    {
        let window = windows[k];
        proof {
            if planned_tokens(windows@, (k + 1) as nat) is Err {
                lemma_first_plan_error(windows@, (k + 1) as nat, windows@.len());
            }
        }
        if window.valid_frames == 0 || window.valid_frames > window.padded_frames
            || window.padded_frames == 0 || window.padded_frames % MEL_FRAMES_PER_CHUNK != 0 {
            return Err(
                GraphError::WindowPlan {
                    start_frame: window.start_frame,
                    valid: window.valid_frames,
                    padded: window.padded_frames,
                },
            );
        }
        let tokens: usize = match (window.padded_frames / MEL_FRAMES_PER_CHUNK).checked_mul(
            TOKENS_PER_CHUNK,
        ) {
            Some(tokens) => tokens,
            None => return Err(GraphError::PlannedOverflow),
        };
        count =
        match count.checked_add(tokens) {
            Some(count) => count,
            None => return Err(GraphError::PlannedOverflow),
        };
        k = k + 1;
    }
    Ok(count)
}

impl Qwen3AsrAudioEncoder {
    /// The number of embeddings of windows.
    pub fn planned_embedding_token_count(&self, windows: &[PreparedAudioFeatureWindowPlan])
        -> (result: Result<usize, GraphError>)
        ensures
            windows@.len() == 0 ==> result == Err::<usize, GraphError>(GraphError::NoWindows),
            windows@.len() > 0 ==> match result {
                Ok(count) => planned_tokens(windows@, windows@.len()) == Ok::<int, GraphError>(
                    count as int,
                ),
                Err(error) => planned_tokens(windows@, windows@.len()) == Err::<int, GraphError>(
                    error,
                ),
            },
    {
        planned_embedding_tokens(windows)
    }
}

/// Three convolutions make thirteen columns of a chunk of a hundred frames: the number of
/// embeddings that is planned for a window is the number of columns that its chunks have after
/// the convolutions.
pub proof fn planned_tokens_are_what_convolutions_leave(window: PreparedAudioFeatureWindowPlan)
    requires
        window_plan_valid(window),
    ensures
        planned_tokens(seq![window], 1) == Ok::<int, GraphError>(
            (window.padded_frames as int / 100) * conv_size(conv_size(conv_size(100))),
        ),
{
    assert(conv_size(100) == 50 && conv_size(50) == 25 && conv_size(25) == 13);
    assert(planned_tokens(seq![window], 0) == Ok::<int, GraphError>(0));
    assert(seq![window][0] == window);
}

/// The padded frames of the first `k` windows.
pub open spec fn padded_frames_sum(windows: Seq<PreparedAudioFeatureWindowPlan>, k: nat) -> int
    decreases k,
{
    if k == 0 {
        0
    } else {
        padded_frames_sum(windows, (k - 1) as nat) + windows[k - 1].padded_frames
    }
}

/// Every window counts: there are thirteen embeddings for each hundred padded frames of all
/// windows together. The count fails only where a window cannot be encoded or the number is no
/// machine number.
pub proof fn every_window_has_its_embeddings(windows: Seq<PreparedAudioFeatureWindowPlan>, k: nat)
    requires
        k <= windows.len(),
    ensures
        match planned_tokens(windows, k) {
            Ok(count) => {
                &&& 100 * count == 13 * padded_frames_sum(windows, k)
                &&& 0 <= count
                &&& forall|i: int|
                    0 <= i < k ==> 0 < (#[trigger] windows[i]).valid_frames
                        <= windows[i].padded_frames && windows[i].padded_frames % 100 == 0
            },
            Err(_) => (exists|i: int|
                0 <= i < k && !(0 < (#[trigger] windows[i]).valid_frames
                    <= windows[i].padded_frames && windows[i].padded_frames % 100 == 0)) || 13
                * padded_frames_sum(windows, k) > 100 * usize::MAX,
        },
        padded_frames_sum(windows, k) >= 0,
    decreases k,
{
    if k > 0 {
        every_window_has_its_embeddings(windows, (k - 1) as nat);
        let w = windows[k - 1];
        assert(w.padded_frames % 100 == 0 ==> (w.padded_frames as int / 100) * 100
            == w.padded_frames);
    }
}

/// The number of elements of a weight, or the text of the overflow.
pub fn tensor_element_count(name: &str, shape: Shape) -> (result: Result<usize, String>)
    ensures
        match result {
            Ok(n) => shape.countable() && n == shape.elements(),
            Err(text) => !shape.countable() && text@ == "qwen3_asr tensor "@ + name@
                + " element count overflows usize"@,
        },
{
    match shape.count() {
        Some(n) => Ok(n),
        None => Err(
            Text::start("qwen3_asr tensor ").text(name).text(
                " element count overflows usize",
            ).finish(),
        ),
    }
}

/// Where the bytes of a weight are: its number of elements and the end of its range, or the text
/// of what is wrong.
pub open spec fn weight_range_outcome(
    name: Seq<char>,
    shape: Shape,
    data_offset: usize,
    block_size: usize,
    type_size: usize,
    mapped_len: usize,
) -> Result<(int, int), Seq<char>> {
    let bytes = shape.elements() / block_size as int * type_size;
    if !shape.countable() {
        Err("qwen3_asr tensor "@ + name + " element count overflows usize"@)
    } else if block_size == 0 || bytes > usize::MAX {
        Err("qwen3_asr tensor "@ + name + " storage size overflows usize"@)
    } else if data_offset + bytes > usize::MAX {
        Err("qwen3_asr tensor "@ + name + " data range overflows"@)
    } else if data_offset + bytes > mapped_len {
        Err("qwen3_asr tensor "@ + name + " exceeds mapped sidecar bounds"@)
    } else {
        Ok((shape.elements(), data_offset + bytes))
    }
}

/// Where the bytes of a weight are.
pub fn weight_range(
    name: &str,
    shape: Shape,
    data_offset: usize,
    block_size: usize,
    type_size: usize,
    mapped_len: usize,
) -> (result: Result<(usize, usize), String>)
    ensures
        match result {
            Ok((elements, end)) => weight_range_outcome(
                name@,
                shape,
                data_offset,
                block_size,
                type_size,
                mapped_len,
            ) == Ok::<(int, int), Seq<char>>((elements as int, end as int)),
            Err(text) => weight_range_outcome(
                name@,
                shape,
                data_offset,
                block_size,
                type_size,
                mapped_len,
            ) == Err::<(int, int), Seq<char>>(text@),
        },
{
    let elements: usize = match tensor_element_count(name, shape) {
        Ok(n) => n,
        Err(text) => return Err(text),
    };
    let blocks: Option<usize> = if block_size == 0 {
        None
    } else {
        (elements / block_size).checked_mul(type_size)
    };
    let byte_len: usize = match blocks {
        Some(bytes) => bytes,
        None => return Err(
            Text::start("qwen3_asr tensor ").text(name).text(
                " storage size overflows usize",
            ).finish(),
        ),
    };
    let end: usize = match data_offset.checked_add(byte_len) {
        Some(end) => end,
        None => return Err(
            Text::start("qwen3_asr tensor ").text(name).text(" data range overflows").finish(),
        ),
    };
    if end > mapped_len {
        return Err(
            Text::start("qwen3_asr tensor ").text(name).text(
                " exceeds mapped sidecar bounds",
            ).finish(),
        );
    }
    Ok((elements, end))
}

/// A window is accepted exactly where it holds whole chunks of a hundred frames, no more valid
/// frames than it has, and a value for each mel bin of each frame.
pub proof fn windows_are_accepted_where_they_are_whole<T>(
    window: PreparedAudioFeatureWindow<T>,
    mel_bins: usize,
)
    ensures
        window_problem(window, mel_bins) is None <==> {
            &&& window.mel_bins == mel_bins
            &&& window.padded_frames >= 100
            &&& window.padded_frames % 100 == 0
            &&& window.valid_frames <= window.padded_frames
            &&& window.data_mel_major@.len() == mel_bins * window.padded_frames
            &&& mel_bins * window.padded_frames <= usize::MAX
        },
{
}

/// A convolution is accepted exactly where its kernels have three by three weights for each pair of
/// channels and a bias each, and input and output are maps that can be counted.
pub proof fn convolutions_are_accepted_where_kernels_fit<T>(
    map: ConvFeatureMap<T>,
    weights: ConvolutionShape,
)
    ensures
        convolution_problem(map, weights) is None <==> {
            let width = (map.width + 1) / 2;
            let height = (map.height + 1) / 2;
            &&& weights.input_channels == map.channels
            &&& map.channels * 9 <= usize::MAX
            &&& weights.kernel_len == weights.output_channels * (map.channels * 9)
            &&& weights.bias_len == weights.output_channels
            &&& 1 <= map.width <= usize::MAX - 2
            &&& 1 <= map.height <= usize::MAX - 2
            &&& map.batch_count * width <= usize::MAX
            &&& map.batch_count * width * height <= usize::MAX
            &&& map.batch_count * width * height * weights.output_channels <= usize::MAX
        },
{
    assert(map.width >= 1 ==> conv_size(map.width as int) == (map.width + 1) / 2);
    assert(map.height >= 1 ==> conv_size(map.height as int) == (map.height + 1) / 2);
}

/// A projection is accepted exactly where it has a column for each channel of each row of a map,
/// and its input and output can be counted.
pub proof fn projections_are_accepted_where_columns_fit<T>(
    map: ConvFeatureMap<T>,
    projection: QuantizedTensor,
)
    ensures
        projection_problem(map, projection) is None <==> {
            let tokens = map.batch_count * map.width;
            &&& projection.cols == map.channels * map.height
            &&& tokens <= usize::MAX
            &&& tokens * (map.channels * map.height) <= usize::MAX
            &&& tokens * projection.rows <= usize::MAX
        },
{
}

/// Positions are added exactly where a stage holds whole chunks of thirteen tokens and the table
/// has a row of the same width for each of the thirteen.
pub proof fn positions_are_accepted_for_whole_chunks(
    tokens: usize,
    dim: usize,
    values: int,
    table_values: int,
    table_rows: usize,
)
    ensures
        positions_problem(tokens, dim, values, table_values, table_rows) is None <==> {
            &&& dim > 0
            &&& tokens >= 13
            &&& tokens % 13 == 0
            &&& values == tokens * dim
            &&& tokens * dim <= usize::MAX
            &&& table_rows >= 13
            &&& table_values == table_rows * dim
            &&& table_rows * dim <= usize::MAX
        },
{
}

/// The projector is accepted exactly where it takes what a stage gives: the first matrix the width
/// of the stage, the second what the first gives, each with a bias for every row.
pub proof fn projectors_take_what_the_stage_gives(
    tokens: usize,
    dim: usize,
    values: int,
    weights: ProjectorShape,
    wanted_dim: usize,
)
    ensures
        projector_problem(tokens, dim, values, weights, wanted_dim) is None <==> {
            &&& tokens > 0
            &&& dim > 0
            &&& dim == wanted_dim
            &&& values == tokens * dim
            &&& tokens * dim <= usize::MAX
            &&& weights.up.cols == dim
            &&& weights.up.rows > 0
            &&& weights.up_bias_len == weights.up.rows
            &&& weights.down.cols == weights.up.rows
            &&& weights.down.rows > 0
            &&& weights.down_bias_len == weights.down.rows
            &&& tokens * weights.down.rows <= usize::MAX
        },
{
}

/// The transformer is run exactly where a stage has the width of the model, one set of weights is
/// there for each layer, and the values of all heads can be counted.
pub proof fn transformers_are_accepted_where_stages_fit(
    tokens: usize,
    dim: usize,
    values: int,
    layers: usize,
    config: Qwen3AsrAudioConfig,
)
    ensures
        transformer_problem(tokens, dim, values, layers, config) is None <==> {
            &&& tokens > 0
            &&& dim == config.embedding_dim
            &&& values == tokens * dim
            &&& tokens * dim <= usize::MAX
            &&& layers == config.layer_count
            &&& tokens * config.head_dim <= usize::MAX
            &&& config.head_count * (tokens * config.head_dim) <= usize::MAX
        },
{
}

/// The bytes of a weight lie within the file, as many whole blocks as its elements fill.
pub proof fn weights_lie_within_the_sidecar(
    name: Seq<char>,
    shape: Shape,
    data_offset: usize,
    block_size: usize,
    type_size: usize,
    mapped_len: usize,
)
    ensures
        weight_range_outcome(name, shape, data_offset, block_size, type_size, mapped_len) is Ok <==> {
            let elements = shape.d0 * shape.d1 * shape.d2 * shape.d3;
            &&& shape.d0 * shape.d1 <= usize::MAX
            &&& shape.d0 * shape.d1 * shape.d2 <= usize::MAX
            &&& elements <= usize::MAX
            &&& block_size > 0
            &&& data_offset + elements / block_size as int * type_size <= mapped_len
        },
        weight_range_outcome(
            name,
            shape,
            data_offset,
            block_size,
            type_size,
            mapped_len,
        ) matches Ok((elements, end)) ==> {
            &&& elements == shape.d0 * shape.d1 * shape.d2 * shape.d3
            &&& end == data_offset + elements / block_size as int * type_size
            &&& end <= mapped_len
        },
{
}

} // verus!
