//! A vision encoder whose patch grid is pooled on the way into the projector.
use super::qwen3_asr::{GGML_TYPE_BF16, GGML_TYPE_F16};
use super::vision::{
    ask_vision_layers, colour, colour_text, kernel_values, keys_give, number_as_size,
    parse_rgb_triplet, patch_kernel_elements, size_of_number, vision_layers_asked, with_defaults,
    MatrixCheck, VisionKeys, VisionMetadata,
};
use crate::gguf::{
    find_by_name, find_gguf_tensor, saturating_product, TensorDirectory,
};
use crate::tables::{lemma_place_row, lemma_row_place};
use crate::tensors::{
    ask, asked, further_tensors_follow, load_more, loaded_at, requests_fit, with_tensors, Loaded,
    Requirement, Rule, TensorError, TensorProblem,
};
use crate::text::{decimal, Text};
use vstd::prelude::*;
use vstd::string::*;

verus! {

/// The image size where none is given.
pub const DEFAULT_IMAGE_SIZE: i64 = 896;

/// The number of tokens above which the grid may be pooled before the tower.
pub const FAST_POOL_THRESHOLD: usize = 2_048;

/// Why a sidecar or an image is not accepted.
#[derive(Debug)]
pub enum GemmaError {
    Colour(String),
    Metadata,
    Heads { dim: usize, head_count: usize },
    ImageExtent { image_size: usize, patch_size: usize },
    KernelOverflow,
    PositionOverflow,
    Tensor(TensorError),
    ProjectionRank,
    ProjectionShape { ne0: usize, ne1: usize, target_dim: usize, dim: usize },
    View { width: usize, height: usize, align: usize },
    ViewOverflow,
    Indivisible { path: String, width: usize, height: usize, patch_size: usize },
    EmptyGrid { path: String, across: usize, down: usize },
    GridOverflow,
    Pooling { merge_factor: usize, across: usize, down: usize },
    PoolOverflow,
    FastPooling,
    DetailedLayer,
}

/// The text of an image that is not cut into whole patches.
pub open spec fn indivisible_text(
    path: Seq<char>,
    width: usize,
    height: usize,
    patch_size: usize,
) -> Seq<char> {
    "image '"@ + path + "' size "@ + decimal(width as nat) + "x"@ + decimal(height as nat)
        + " is not divisible by patch_size "@ + decimal(patch_size as nat)
}

/// The text of an image without patches.
pub open spec fn gemma_empty_text(path: Seq<char>, across: usize, down: usize) -> Seq<char> {
    "image '"@ + path + "' produced empty patch grid (pw="@ + decimal(across as nat) + " ph="@
        + decimal(down as nat) + ")"@
}

impl GemmaError {
    /// The message text of the error.
    pub open spec fn text(self) -> Seq<char> {
        match self {
            GemmaError::Colour(text) => text@,
            GemmaError::Metadata =>
                "invalid gemma3 mmproj metadata: one or more required clip.vision.* keys are missing/zero"@,
            GemmaError::Heads { dim, head_count } => "invalid gemma3 mmproj metadata: dim "@
                + decimal(dim as nat) + " is not divisible by head_count "@ + decimal(
                head_count as nat,
            ),
            GemmaError::ImageExtent { image_size, patch_size } =>
                "invalid gemma3 mmproj metadata: image_size "@ + decimal(image_size as nat)
                    + " is not divisible by patch_size "@ + decimal(patch_size as nat),
            GemmaError::KernelOverflow => "patch kernel element count overflow"@,
            GemmaError::PositionOverflow => "position token count overflow"@,
            GemmaError::Tensor(error) => error.problem.text(error.name@),
            GemmaError::ProjectionRank =>
                "tensor mm.input_projection.weight must be at least 2D"@,
            GemmaError::ProjectionShape { ne0, ne1, target_dim, dim } =>
                "unexpected mm.input_projection.weight shape: got "@ + decimal(ne0 as nat) + "x"@
                    + decimal(ne1 as nat) + ", expected "@ + decimal(target_dim as nat) + "x"@
                    + decimal(dim as nat) + " (text_dim x vision_dim)"@,
            GemmaError::View { width, height, align } => "gemma3 view "@ + decimal(width as nat)
                + "x"@ + decimal(height as nat) + " must be a positive multiple of "@ + decimal(
                align as nat,
            ),
            GemmaError::ViewOverflow => "gemma3 view token count overflow"@,
            GemmaError::Indivisible { path, width, height, patch_size } => indivisible_text(
                path@,
                width,
                height,
                patch_size,
            ),
            GemmaError::EmptyGrid { path, across, down } => gemma_empty_text(path@, across, down),
            GemmaError::GridOverflow => "patch grid overflow"@,
            GemmaError::Pooling { merge_factor, across, down } =>
                "gemma3 pooling requires patch grid divisible by merge factor "@ + decimal(
                    merge_factor as nat,
                ) + " (got "@ + decimal(across as nat) + "x"@ + decimal(down as nat) + ")"@,
            GemmaError::PoolOverflow => "pooled token count overflow"@,
            GemmaError::FastPooling =>
                "encoder stage validation requires Gemma fast pooling disabled"@,
            GemmaError::DetailedLayer => "encoder diagnostic layer index is out of range"@,
        }
    }

    /// The message text of the error.
    pub fn message(&self) -> (message: String)
        ensures
            message@ == self.text(),
    {
        match self {
            GemmaError::Colour(text) => Text::start(text.as_str()).finish(),
            GemmaError::Metadata => Text::start(
                "invalid gemma3 mmproj metadata: one or more required clip.vision.* keys are missing/zero",
            ).finish(),
            GemmaError::Heads { dim, head_count } => Text::start(
                "invalid gemma3 mmproj metadata: dim ",
            ).size(*dim).text(" is not divisible by head_count ").size(*head_count).finish(),
            GemmaError::ImageExtent { image_size, patch_size } => Text::start(
                "invalid gemma3 mmproj metadata: image_size ",
            ).size(*image_size).text(" is not divisible by patch_size ").size(
                *patch_size,
            ).finish(),
            GemmaError::KernelOverflow => Text::start(
                "patch kernel element count overflow",
            ).finish(),
            GemmaError::PositionOverflow => Text::start("position token count overflow").finish(),
            GemmaError::Tensor(error) => error.message(),
            GemmaError::ProjectionRank => Text::start(
                "tensor mm.input_projection.weight must be at least 2D",
            ).finish(),
            GemmaError::ProjectionShape { ne0, ne1, target_dim, dim } => Text::start(
                "unexpected mm.input_projection.weight shape: got ",
            ).size(*ne0).text("x").size(*ne1).text(", expected ").size(*target_dim).text(
                "x",
            ).size(*dim).text(" (text_dim x vision_dim)").finish(),
            GemmaError::View { width, height, align } => Text::start("gemma3 view ").size(
                *width,
            ).text("x").size(*height).text(" must be a positive multiple of ").size(
                *align,
            ).finish(),
            GemmaError::ViewOverflow => Text::start("gemma3 view token count overflow").finish(),
            GemmaError::Indivisible { path, width, height, patch_size } => Text::start(
                "image '",
            ).text(path.as_str()).text("' size ").size(*width).text("x").size(*height).text(
                " is not divisible by patch_size ",
            ).size(*patch_size).finish(),
            GemmaError::EmptyGrid { path, across, down } => Text::start("image '").text(
                path.as_str(),
            ).text("' produced empty patch grid (pw=").size(*across).text(" ph=").size(
                *down,
            ).text(")").finish(),
            GemmaError::GridOverflow => Text::start("patch grid overflow").finish(),
            GemmaError::Pooling { merge_factor, across, down } => Text::start(
                "gemma3 pooling requires patch grid divisible by merge factor ",
            ).size(*merge_factor).text(" (got ").size(*across).text("x").size(*down).text(
                ")",
            ).finish(),
            GemmaError::PoolOverflow => Text::start("pooled token count overflow").finish(),
            GemmaError::FastPooling => Text::start(
                "encoder stage validation requires Gemma fast pooling disabled",
            ).finish(),
            GemmaError::DetailedLayer => Text::start(
                "encoder diagnostic layer index is out of range",
            ).finish(),
        }
    }
}

/// The dimensions of the encoder.
#[derive(Clone, Copy, Debug)]
pub struct GemmaConfig {
    pub dim: usize,
    pub head_count: usize,
    pub head_dim: usize,
    pub ff_dim: usize,
    pub n_layers: usize,
    /// The bit pattern of the layer norm epsilon.
    pub eps: u32,
    pub patch_size: usize,
    pub base_image_size: usize,
    pub merge_factor: usize,
    pub image_mean: (u32, u32, u32),
    pub image_std: (u32, u32, u32),
    pub use_gelu: bool,
    pub target_dim: usize,
}

/// The number of positions of the base image.
pub open spec fn base_positions(config: GemmaConfig) -> int {
    (config.base_image_size as int / config.patch_size as int) * (config.base_image_size as int
        / config.patch_size as int)
}

/// The metadata of a sidecar from its keys: a missing patch size is 14, a missing image size 896, a
/// missing scale factor 4, a missing epsilon one millionth, and a missing activation choice GELU.
/// Other missing numbers are zero.
pub fn gemma_key_values(keys: VisionKeys) -> (meta: VisionMetadata)
    ensures
        keys_give(keys, DEFAULT_IMAGE_SIZE, meta),
{
    with_defaults(keys, DEFAULT_IMAGE_SIZE)
}

/// What the metadata of a sidecar gives: the dimensions, or the text of the first thing that is
/// wrong.
pub open spec fn gemma_metadata(meta: VisionMetadata, target_dim: usize) -> Result<
    GemmaConfig,
    Seq<char>,
> {
    let dim = size_of_number(meta.embedding_length);
    let head_count = size_of_number(meta.head_count);
    let ff_dim = size_of_number(meta.feed_forward_length);
    let n_layers = size_of_number(meta.block_count);
    let patch_size = size_of_number(meta.patch_size);
    let base_image_size = size_of_number(meta.image_size);
    let merge_factor = size_of_number(meta.scale_factor);
    let side = base_image_size as int / patch_size as int;
    if colour(meta.image_mean) is None {
        Err(colour_text("clip.vision.image_mean"@, meta.image_mean))
    } else if colour(meta.image_std) is None {
        Err(colour_text("clip.vision.image_std"@, meta.image_std))
    } else if dim == 0 || head_count == 0 || ff_dim == 0 || n_layers == 0 || patch_size == 0
        || merge_factor == 0 {
        Err(GemmaError::Metadata.text())
    } else if dim as int % head_count as int != 0 {
        Err(GemmaError::Heads { dim, head_count }.text())
    } else if base_image_size as int % patch_size as int != 0 {
        Err(GemmaError::ImageExtent { image_size: base_image_size, patch_size }.text())
    } else if kernel_values(patch_size as int, dim as int) > usize::MAX {
        Err(GemmaError::KernelOverflow.text())
    } else if side * side > usize::MAX {
        Err(GemmaError::PositionOverflow.text())
    } else {
        Ok(
            GemmaConfig {
                dim,
                head_count,
                head_dim: (dim as int / head_count as int) as usize,
                ff_dim,
                n_layers,
                eps: meta.layer_norm_epsilon,
                patch_size,
                base_image_size,
                merge_factor,
                image_mean: colour(meta.image_mean)->Some_0,
                image_std: colour(meta.image_std)->Some_0,
                use_gelu: meta.use_gelu,
                target_dim,
            },
        )
    }
}

/// Reads the metadata of a sidecar.
pub fn parse_gemma_metadata(meta: &VisionMetadata, target_dim: usize) -> (result: Result<
    GemmaConfig,
    GemmaError,
>)
    ensures
        match result {
            Ok(config) => {
                &&& gemma_metadata(*meta, target_dim) == Ok::<GemmaConfig, Seq<char>>(config)
                &&& config.dim > 0
                &&& config.patch_size > 0
                &&& config.merge_factor > 0
                &&& kernel_values(config.patch_size as int, config.dim as int) <= usize::MAX
                &&& base_positions(config) <= usize::MAX
            },
            Err(error) => gemma_metadata(*meta, target_dim) == Err::<GemmaConfig, Seq<char>>(
                error.text(),
            ),
        },
{
    let dim: usize = number_as_size(meta.embedding_length);
    let head_count: usize = number_as_size(meta.head_count);
    let ff_dim: usize = number_as_size(meta.feed_forward_length);
    let n_layers: usize = number_as_size(meta.block_count);
    let patch_size: usize = number_as_size(meta.patch_size);
    let base_image_size: usize = number_as_size(meta.image_size);
    let merge_factor: usize = number_as_size(meta.scale_factor);
    let image_mean = match parse_rgb_triplet(&meta.image_mean, "clip.vision.image_mean") {
        Ok(triplet) => triplet,
        Err(text) => return Err(GemmaError::Colour(text)),
    };
    let image_std = match parse_rgb_triplet(&meta.image_std, "clip.vision.image_std") {
        Ok(triplet) => triplet,
        Err(text) => return Err(GemmaError::Colour(text)),
    };
    if dim == 0 || head_count == 0 || ff_dim == 0 || n_layers == 0 || patch_size == 0
        || merge_factor == 0 {
        return Err(GemmaError::Metadata);
    }
    if dim % head_count != 0 {
        return Err(GemmaError::Heads { dim, head_count });
    }
    if base_image_size % patch_size != 0 {
        return Err(GemmaError::ImageExtent { image_size: base_image_size, patch_size });
    }
    match patch_kernel_elements(patch_size, dim) {
        Some(_) => {},
        None => return Err(GemmaError::KernelOverflow),
    }
    let side: usize = base_image_size / patch_size;
    match side.checked_mul(side) {
        Some(_) => {},
        None => return Err(GemmaError::PositionOverflow),
    }
    Ok(
        GemmaConfig {
            dim,
            head_count,
            head_dim: dim / head_count,
            ff_dim,
            n_layers,
            eps: meta.layer_norm_epsilon,
            patch_size,
            base_image_size,
            merge_factor,
            image_mean,
            image_std,
            use_gelu: meta.use_gelu,
            target_dim,
        },
    )
}

/// The patch kernels and their bias.
pub open spec fn gemma_kernels(config: GemmaConfig) -> Seq<(Seq<char>, Rule)> {
    seq![
        (
            "v.patch_embd.weight"@,
            Rule::Floats(
                Some(kernel_values(config.patch_size as int, config.dim as int) as usize),
            ),
        ),
        ("v.patch_embd.bias"@, Rule::Floats(Some(config.dim))),
    ]
}

/// The position table and the last norm.
pub open spec fn gemma_tables(config: GemmaConfig) -> Seq<(Seq<char>, Rule)> {
    seq![
        (
            "v.position_embd.weight"@,
            Rule::Floats(Some((base_positions(config) * config.dim) as usize)),
        ),
        ("v.post_ln.weight"@, Rule::Floats(Some(config.dim))),
        ("v.post_ln.bias"@, Rule::Floats(Some(config.dim))),
    ]
}

/// The projector and the layers.
pub open spec fn gemma_rest(config: GemmaConfig) -> Seq<(Seq<char>, Rule)> {
    seq![
        (
            "mm.input_projection.weight"@,
            Rule::Floats(Some((config.target_dim * config.dim) as usize)),
        ),
        ("mm.soft_emb_norm.weight"@, Rule::Floats(Some(config.dim))),
    ] + vision_layers_asked(
        MatrixCheck::Elements,
        config.n_layers as nat,
        config.dim,
        config.ff_dim,
    )
}

/// What is wrong with the projector's matrix, which is stored with the text dimension first.
pub open spec fn projection_problem(gguf: TensorDirectory, config: GemmaConfig) -> Option<
    Seq<char>,
> {
    match find_by_name(gguf.tensors@, "mm.input_projection.weight"@) {
        None => Some(TensorProblem::NotFound.text("mm.input_projection.weight"@)),
        Some(tensor) => {
            let ne0 = tensor.ne@[0] as usize;
            let ne1 = tensor.ne@[1] as usize;
            if tensor.n_dims < 2 {
                Some(GemmaError::ProjectionRank.text())
            } else if ne0 != config.target_dim || ne1 != config.dim {
                Some(
                    GemmaError::ProjectionShape {
                        ne0,
                        ne1,
                        target_dim: config.target_dim,
                        dim: config.dim,
                    }.text(),
                )
            } else {
                None
            }
        },
    }
}

/// The encoder of a sidecar: its dimensions and its tensors in order.
#[verifier::ext_equal]
pub struct GemmaView {
    pub config: GemmaConfig,
    pub tensors: Seq<Loaded>,
}

/// The encoder of a sidecar, or the text of the first thing that is wrong with it.
pub open spec fn gemma_outcome(
    meta: VisionMetadata,
    gguf: TensorDirectory,
    target_dim: usize,
) -> Result<GemmaView, Seq<char>> {
    let tensors = gguf.tensors@;
    let mapped = gguf.mapped_len;
    match gemma_metadata(meta, target_dim) {
        Err(text) => Err(text),
        Ok(config) => match with_tensors(tensors, mapped, Seq::empty(), gemma_kernels(config)) {
            Err(text) => Err(text),
            Ok(kernels) => match with_tensors(tensors, mapped, kernels, gemma_tables(config)) {
                Err(text) => Err(text),
                Ok(first) => match projection_problem(gguf, config) {
                    Some(text) => Err(text),
                    None => match with_tensors(tensors, mapped, first, gemma_rest(config)) {
                        Err(text) => Err(text),
                        Ok(all) => Ok(GemmaView { config, tensors: all }),
                    },
                },
            },
        },
    }
}

/// Whether the tensors that the encoder asks for can be sized, as far as loading comes.
pub open spec fn gemma_fits(gguf: TensorDirectory, config: GemmaConfig) -> bool {
    let tensors = gguf.tensors@;
    let mapped = gguf.mapped_len;
    &&& requests_fit(tensors, gemma_kernels(config))
    &&& with_tensors(tensors, mapped, Seq::empty(), gemma_kernels(config)) matches Ok(kernels)
        ==> {
        &&& base_positions(config) * config.dim <= usize::MAX
        &&& requests_fit(tensors, gemma_tables(config))
        &&& with_tensors(tensors, mapped, kernels, gemma_tables(config)) is Ok
            && projection_problem(gguf, config) is None ==> {
            &&& config.target_dim * config.dim <= usize::MAX
            &&& requests_fit(tensors, gemma_rest(config))
        }
    }
}

/// The vision encoder: its dimensions and its tensors. The tensors are the patch kernels and
/// their bias, the position table, the last norm, the projector's matrix and norm, and those of
/// the layers.
#[derive(Debug)]
pub struct Gemma3VisionEncoder {
    pub config: GemmaConfig,
    pub tensors: Vec<Loaded>,
}

impl View for Gemma3VisionEncoder {
    type V = GemmaView;

    open spec fn view(&self) -> GemmaView {
        GemmaView { config: self.config, tensors: self.tensors@ }
    }
}

fn check_projection(gguf: &TensorDirectory, config: &GemmaConfig) -> (result: Result<
    (),
    GemmaError,
>)
    ensures
        match result {
            Ok(_) => projection_problem(*gguf, *config) is None,
            Err(error) => projection_problem(*gguf, *config) == Some(error.text()),
        },
{
    let name: String = "mm.input_projection.weight".to_owned();
    match find_gguf_tensor(gguf, &name) {
        None => Err(
            GemmaError::Tensor(TensorError { name, problem: TensorProblem::NotFound }),
        ),
        Some(tensor) => {
            if tensor.n_dims < 2 {
                return Err(GemmaError::ProjectionRank);
            }
            let ne0: usize = #[verifier::truncate]
            (tensor.ne[0] as usize);
            let ne1: usize = #[verifier::truncate]
            (tensor.ne[1] as usize);
            if ne0 != config.target_dim || ne1 != config.dim {
                return Err(
                    GemmaError::ProjectionShape {
                        ne0,
                        ne1,
                        target_dim: config.target_dim,
                        dim: config.dim,
                    },
                );
            }
            Ok(())
        },
    }
}

/// The type of a loaded tensor of values.
pub open spec fn float_type(tensor: Loaded) -> i32 {
    match tensor {
        Loaded::Floats { ttype, .. } => ttype,
        _ => 0,
    }
}

fn type_of_floats(tensor: Loaded) -> (ttype: i32)
    ensures
        ttype == float_type(tensor),
{
    match tensor {
        Loaded::Floats { ttype, .. } => ttype,
        _ => 0,
    }
}

/// What the extents of an image must be multiples of.
pub open spec fn alignment(config: GemmaConfig) -> int {
    let product = config.patch_size * config.merge_factor;
    if product > usize::MAX {
        usize::MAX as int
    } else if product < 1 {
        1
    } else {
        product
    }
}

/// How many embeddings a view has, or the text of what is wrong with its extents.
pub open spec fn view_tokens(config: GemmaConfig, width: usize, height: usize) -> Result<
    int,
    Seq<char>,
> {
    let align = alignment(config);
    if width == 0 || height == 0 || width as int % align != 0 || height as int % align != 0 {
        Err(GemmaError::View { width, height, align: align as usize }.text())
    } else if (width as int / align) * (height as int / align) > usize::MAX {
        Err(GemmaError::ViewOverflow.text())
    } else {
        Ok((width as int / align) * (height as int / align))
    }
}

/// How an image is cut into patches, or the text of what is wrong with its extents.
pub open spec fn gemma_grid(patch_size: usize, width: usize, height: usize, path: Seq<char>) -> Result<
    (usize, usize),
    Seq<char>,
> {
    let across = (width as int / patch_size as int) as usize;
    let down = (height as int / patch_size as int) as usize;
    if width as int % patch_size as int != 0 || height as int % patch_size as int != 0 {
        Err(indivisible_text(path, width, height, patch_size))
    } else if across == 0 || down == 0 {
        Err(gemma_empty_text(path, across, down))
    } else if across * down > usize::MAX {
        Err(GemmaError::GridOverflow.text())
    } else {
        Ok((across, down))
    }
}

/// The extents of the pooled grid, or the text of what is wrong with the grid.
pub open spec fn pooled_grid(merge_factor: usize, across: usize, down: usize) -> Result<
    (usize, usize),
    Seq<char>,
> {
    let out_w = (across as int / merge_factor as int) as usize;
    let out_h = (down as int / merge_factor as int) as usize;
    if across as int % merge_factor as int != 0 || down as int % merge_factor as int != 0 {
        Err(GemmaError::Pooling { merge_factor, across, down }.text())
    } else if out_w * out_h > usize::MAX {
        Err(GemmaError::PoolOverflow.text())
    } else {
        Ok((out_w, out_h))
    }
}

/// Whether all layers of a list exist.
pub open spec fn layers_exist(layers: Seq<usize>, n_layers: usize) -> bool {
    forall|i: int| 0 <= i < layers.len() ==> #[trigger] layers[i] < n_layers
}

impl Gemma3VisionEncoder {
    /// The patch size and the merge factor are not zero.
    pub open spec fn wf(&self) -> bool {
        self.config.patch_size > 0 && self.config.merge_factor > 0 && self.config.dim > 0
            && self.tensors@.len() >= 7
    }

    /// The encoder of a sidecar.
    pub fn new(meta: &VisionMetadata, gguf: &TensorDirectory, target_dim: usize) -> (result: Result<
        Gemma3VisionEncoder,
        GemmaError,
    >)
        requires
            gemma_metadata(*meta, target_dim) matches Ok(config) ==> gemma_fits(*gguf, config),
        ensures
            match result {
                Ok(encoder) => gemma_outcome(*meta, *gguf, target_dim) == Ok::<
                    GemmaView,
                    Seq<char>,
                >(encoder@) && encoder.wf(),
                Err(error) => gemma_outcome(*meta, *gguf, target_dim) == Err::<
                    GemmaView,
                    Seq<char>,
                >(error.text()),
            },
    {
        let config = match parse_gemma_metadata(meta, target_dim) {
            Ok(config) => config,
            Err(error) => return Err(error),
        };
        let kernel: usize = match patch_kernel_elements(config.patch_size, config.dim) {
            Some(n) => n,
            None => return Err(GemmaError::KernelOverflow),
        };
        let side: usize = config.base_image_size / config.patch_size;
        let mut list: Vec<Requirement> = Vec::new();
        ask(&mut list, "v.patch_embd.weight", Rule::Floats(Some(kernel)));
        ask(&mut list, "v.patch_embd.bias", Rule::Floats(Some(config.dim)));
        assert(asked(list@) =~= gemma_kernels(config));
        let mut loaded: Vec<Loaded> = Vec::new();
        match load_more(gguf, &list, &mut loaded) {
            Ok(_) => {},
            Err(error) => return Err(GemmaError::Tensor(error)),
        }
        proof {
            assert(side * side >= 0) by (nonlinear_arith);
            assert(side * side * config.dim >= 0) by (nonlinear_arith)
                requires
                    side * side >= 0,
            ;
            assert(target_dim * config.dim >= 0) by (nonlinear_arith);
        }
        let positions: usize = side * side;
        let mut tables: Vec<Requirement> = Vec::new();
        ask(&mut tables, "v.position_embd.weight", Rule::Floats(Some(positions * config.dim)));
        ask(&mut tables, "v.post_ln.weight", Rule::Floats(Some(config.dim)));
        ask(&mut tables, "v.post_ln.bias", Rule::Floats(Some(config.dim)));
        assert(asked(tables@) =~= gemma_tables(config));
        match load_more(gguf, &tables, &mut loaded) {
            Ok(_) => {},
            Err(error) => return Err(GemmaError::Tensor(error)),
        }
        match check_projection(gguf, &config) {
            Ok(_) => {},
            Err(error) => return Err(error),
        }
        let mut rest: Vec<Requirement> = Vec::new();
        ask(
            &mut rest,
            "mm.input_projection.weight",
            Rule::Floats(Some(target_dim * config.dim)),
        );
        ask(&mut rest, "mm.soft_emb_norm.weight", Rule::Floats(Some(config.dim)));
        let ghost front = asked(rest@);
        ask_vision_layers(
            &mut rest,
            MatrixCheck::Elements,
            config.n_layers,
            config.dim,
            config.ff_dim,
        );
        assert(asked(rest@) =~= gemma_rest(config));
        assert(rest@.len() == asked(rest@).len());
        match load_more(gguf, &rest, &mut loaded) {
            Ok(_) => {},
            Err(error) => return Err(GemmaError::Tensor(error)),
        }
        Ok(Gemma3VisionEncoder { config, tensors: loaded })
    }

    /// Whether patches are multiplied in half precision: always, unless the kernels are bfloat16.
    pub fn patches_are_half(&self) -> (half: bool)
        requires
            self.wf(),
        ensures
            half == (float_type(self.tensors@[0]) != GGML_TYPE_BF16),
    {
        type_of_floats(self.tensors[0]) != GGML_TYPE_BF16
    }

    /// Whether the projector multiplies in half precision, and whether in bfloat16.
    pub fn projection_types(&self) -> (types: (bool, bool))
        requires
            self.wf(),
        ensures
            types.0 == (float_type(self.tensors@[5]) == GGML_TYPE_F16),
            types.1 == (float_type(self.tensors@[5]) == GGML_TYPE_BF16),
    {
        let ttype: i32 = type_of_floats(self.tensors[5]);
        (ttype == GGML_TYPE_F16, ttype == GGML_TYPE_BF16)
    }

    /// The image size that the encoder was trained on.
    pub fn recommended_image_size(&self) -> (size: usize)
        ensures
            size == self.config.base_image_size,
    {
        self.config.base_image_size
    }

    /// What the extents of an image must be multiples of.
    pub fn recommended_image_alignment(&self) -> (align: usize)
        ensures
            align == alignment(self.config),
    {
        let align: usize = saturating_product(self.config.patch_size, self.config.merge_factor);
        proof {
            assert(self.config.patch_size * self.config.merge_factor >= 0) by (nonlinear_arith);
        }
        if align > 1 {
            align
        } else {
            1
        }
    }

    /// The bit patterns of the mean and the deviation of each colour.
    pub fn recommended_image_normalization(&self) -> (normalization: (
        (u32, u32, u32),
        (u32, u32, u32),
    ))
        ensures
            normalization == (self.config.image_mean, self.config.image_std),
    {
        (self.config.image_mean, self.config.image_std)
    }

    /// The number of embeddings of a view, known before it is encoded.
    pub fn planned_view_tokens(&self, width: usize, height: usize) -> (result: Result<
        usize,
        GemmaError,
    >)
        ensures
            match result {
                Ok(count) => view_tokens(self.config, width, height) == Ok::<int, Seq<char>>(
                    count as int,
                ),
                Err(error) => view_tokens(self.config, width, height) == Err::<int, Seq<char>>(
                    error.text(),
                ),
            },
    {
        let align: usize = self.recommended_image_alignment();
        if width == 0 || height == 0 || width % align != 0 || height % align != 0 {
            return Err(GemmaError::View { width, height, align });
        }
        match (width / align).checked_mul(height / align) {
            Some(count) => Ok(count),
            None => Err(GemmaError::ViewOverflow),
        }
    }

    /// How an image is cut into patches.
    pub fn patch_grid(&self, width: usize, height: usize, path: &str) -> (result: Result<
        (usize, usize),
        GemmaError,
    >)
        requires
            self.wf(),
        ensures
            match result {
                Ok(grid) => gemma_grid(self.config.patch_size, width, height, path@) == Ok::<
                    (usize, usize),
                    Seq<char>,
                >(grid),
                Err(error) => gemma_grid(self.config.patch_size, width, height, path@) == Err::<
                    (usize, usize),
                    Seq<char>,
                >(error.text()),
            },
    {
        let patch_size: usize = self.config.patch_size;
        if width % patch_size != 0 || height % patch_size != 0 {
            return Err(
                GemmaError::Indivisible { path: path.to_owned(), width, height, patch_size },
            );
        }
        let across: usize = width / patch_size;
        let down: usize = height / patch_size;
        if across == 0 || down == 0 {
            return Err(GemmaError::EmptyGrid { path: path.to_owned(), across, down });
        }
        match across.checked_mul(down) {
            Some(_) => Ok((across, down)),
            None => Err(GemmaError::GridOverflow),
        }
    }

    /// The extents of the pooled grid.
    pub fn pooled_extents(&self, across: usize, down: usize) -> (result: Result<
        (usize, usize),
        GemmaError,
    >)
        requires
            self.wf(),
        ensures
            match result {
                Ok(grid) => pooled_grid(self.config.merge_factor, across, down) == Ok::<
                    (usize, usize),
                    Seq<char>,
                >(grid),
                Err(error) => pooled_grid(self.config.merge_factor, across, down) == Err::<
                    (usize, usize),
                    Seq<char>,
                >(error.text()),
            },
    {
        let merge_factor: usize = self.config.merge_factor;
        if across % merge_factor != 0 || down % merge_factor != 0 {
            return Err(GemmaError::Pooling { merge_factor, across, down });
        }
        let out_w: usize = across / merge_factor;
        let out_h: usize = down / merge_factor;
        match out_w.checked_mul(out_h) {
            Some(_) => Ok((out_w, out_h)),
            None => Err(GemmaError::PoolOverflow),
        }
    }

    /// Checks the layers for which a diagnostic run is to show its stages.
    pub fn check_stages(&self, detailed_layers: &[usize], fast_pooling: bool) -> (result: Result<
        (),
        GemmaError,
    >)
        ensures
            fast_pooling ==> (result matches Err(error) && error.text()
                == GemmaError::FastPooling.text()),
            !fast_pooling && layers_exist(detailed_layers@, self.config.n_layers) ==> result
                is Ok,
            !fast_pooling && !layers_exist(detailed_layers@, self.config.n_layers) ==> (
            result matches Err(error) && error.text() == GemmaError::DetailedLayer.text()),
    {
        if fast_pooling {
            return Err(GemmaError::FastPooling);
        }
        let mut i: usize = 0;
        while i < detailed_layers.len()
            invariant
                i <= detailed_layers@.len(),
                !fast_pooling,
                forall|j: int|
                    0 <= j < i ==> #[trigger] detailed_layers@[j] < self.config.n_layers,
            decreases detailed_layers.len() - i,
        {
            if detailed_layers[i] >= self.config.n_layers {
                assert(detailed_layers@[i as int] >= self.config.n_layers);
                return Err(GemmaError::DetailedLayer);
            }
            i = i + 1;
        }
        Ok(())
    }
}

/// The number of embeddings that is planned for a view is the number of tokens of its pooled
/// patch grid.
pub proof fn planned_views_match_pooling(
    config: GemmaConfig,
    width: usize,
    height: usize,
    path: Seq<char>,
)
    requires
        config.patch_size > 0,
        config.merge_factor > 0,
        config.patch_size * config.merge_factor <= usize::MAX,
    ensures
        view_tokens(config, width, height) matches Ok(count) ==> (gemma_grid(
            config.patch_size,
            width,
            height,
            path,
        ) matches Ok((across, down)) ==> (pooled_grid(config.merge_factor, across, down) matches Ok(
            (out_w, out_h),
        ) && out_w * out_h == count)),
{
    let p = config.patch_size as int;
    let m = config.merge_factor as int;
    let w = width as int;
    let h = height as int;
    assert(p * m >= 1) by (nonlinear_arith)
        requires
            p >= 1,
            m >= 1,
    ;
    lemma_cut_twice(w, p, m);
    lemma_cut_twice(h, p, m);
}

proof fn lemma_cut_twice(extent: int, p: int, m: int)
    requires
        p > 0,
        m > 0,
        0 <= extent,
    ensures
        extent / p / m == extent / (p * m),
        extent % (p * m) == 0 ==> (extent / p) % m == 0 && extent % p == 0,
{
    assert(p * m > 0) by (nonlinear_arith)
        requires
            p > 0,
            m > 0,
    ;
    vstd::arithmetic::div_mod::lemma_div_denominator(extent, p, m);
    if extent % (p * m) == 0 {
        let q = extent / (p * m);
        vstd::arithmetic::div_mod::lemma_fundamental_div_mod(extent, p * m);
        assert(extent == (q * m) * p) by (nonlinear_arith)
            requires
                extent == (p * m) * q,
        ;
        vstd::arithmetic::div_mod::lemma_fundamental_div_mod_converse(extent, p, q * m, 0);
        vstd::arithmetic::div_mod::lemma_fundamental_div_mod_converse(extent / p, m, q, 0);
    }
}

/// The tokens that a token of the pooled grid averages, row by row.
pub open spec fn pool_source(index: int, place: int, merge: int, across: int, out_w: int) -> int {
    ((index / out_w) * merge + place / merge) * across + (index % out_w) * merge + place % merge
}

/// The tokens that a token of the pooled grid averages.
pub fn pool_sources(
    index: usize,
    merge_factor: usize,
    across: usize,
    down: usize,
) -> (sources: Vec<usize>)
    requires
        merge_factor > 0,
        across as int % merge_factor as int == 0,
        down as int % merge_factor as int == 0,
        across * down <= usize::MAX,
        index < (down as int / merge_factor as int) * (across as int / merge_factor as int),
        merge_factor * merge_factor <= usize::MAX,
    ensures
        sources@.len() == merge_factor * merge_factor,
        forall|k: int|
            0 <= k < sources@.len() ==> #[trigger] sources@[k] == pool_source(
                index as int,
                k,
                merge_factor as int,
                across as int,
                across as int / merge_factor as int,
            ) && sources@[k] < across * down,
{
    let m: usize = merge_factor;
    let out_w: usize = across / m;
    let ghost out_h = down as int / m as int;
    proof {
        lemma_place_row(out_h, out_w as int, index as int);
        vstd::arithmetic::div_mod::lemma_fundamental_div_mod(across as int, m as int);
        vstd::arithmetic::div_mod::lemma_fundamental_div_mod(down as int, m as int);
        assert(out_w * m == across) by (nonlinear_arith)
            requires
                across == m * out_w,
        ;
        assert(out_h * m == down) by (nonlinear_arith)
            requires
                down == m * out_h,
        ;
        assert(m * m >= 0) by (nonlinear_arith);
    }
    let oy: usize = index / out_w;
    let ox: usize = index % out_w;
    let total: usize = m * m;
    let mut sources: Vec<usize> = Vec::new();
    let mut k: usize = 0;
    while k < total
        invariant
            m == merge_factor,
            m > 0,
            total == m * m,
            k == sources@.len(),
            k <= total,
            out_w == across as int / m as int,
            out_w * m == across,
            out_h * m == down,
            across * down <= usize::MAX,
            oy == index as int / out_w as int,
            ox == index as int % out_w as int,
            0 <= oy < out_h,
            0 <= ox < out_w,
            forall|j: int|
                0 <= j < sources@.len() ==> #[trigger] sources@[j] == pool_source(
                    index as int,
                    j,
                    m as int,
                    across as int,
                    out_w as int,
                ) && sources@[j] < across * down,
        decreases total - k,
    {
        proof {
            lemma_place_row(m as int, m as int, k as int);
        }
        let my: usize = k / m;
        let mx: usize = k % m;
        proof {
            lemma_row_place(out_h, m as int, oy as int, my as int);
            lemma_row_place(out_w as int, m as int, ox as int, mx as int);
            lemma_row_place(down as int, across as int, oy * m + my, ox * m + mx);
            assert(down * across == across * down) by (nonlinear_arith);
            assert(0 <= oy * m && 0 <= ox * m) by (nonlinear_arith);
            assert(0 <= (oy * m + my) * across) by (nonlinear_arith)
                requires
                    0 <= oy * m + my,
            ;
        }
        let y: usize = oy * m + my;
        let x: usize = ox * m + mx;
        sources.push(y * across + x);
        k = k + 1;
    }
    sources
}

/// Whether the grid is pooled before the tower.
pub fn pools_early(n_tokens: usize, fast_pooling: bool) -> (early: bool)
    ensures
        early == (n_tokens > 2048 && fast_pooling),
{
    n_tokens > FAST_POOL_THRESHOLD && fast_pooling
}

/// The lower case of an ASCII letter.
pub open spec fn ascii_lower(c: char) -> char {
    if 'A' <= c <= 'Z' {
        (c as int + 32) as char
    } else {
        c
    }
}

/// Whether two texts are the same but for the case of ASCII letters.
pub open spec fn same_ignoring_case(a: Seq<char>, b: Seq<char>) -> bool {
    a.len() == b.len() && forall|i: int|
        0 <= i < a.len() ==> ascii_lower(#[trigger] a[i]) == ascii_lower(b[i])
}

fn lower(c: char) -> (l: char)
    ensures
        l == ascii_lower(c),
{
    if 'A' <= c && c <= 'Z' {
        ((c as u8) + 32) as char
    } else {
        c
    }
}

fn equal_ignoring_case(a: &str, b: &str) -> (same: bool)
    ensures
        same == same_ignoring_case(a@, b@),
{
    let n: usize = a.unicode_len();
    if n != b.unicode_len() {
        return false;
    }
    let mut i: usize = 0;
    while i < n
        invariant
            i <= n,
            a@.len() == n,
            b@.len() == n,
            forall|j: int| 0 <= j < i ==> ascii_lower(#[trigger] a@[j]) == ascii_lower(b@[j]),
        decreases n - i,
    {
        if lower(a.get_char(i)) != lower(b.get_char(i)) {
            assert(ascii_lower(a@[i as int]) != ascii_lower(b@[i as int]));
            return false;
        }
        i = i + 1;
    }
    true
}

/// Whether the setting switches early pooling on.
pub fn fast_pooling_enabled(setting: Option<&str>) -> (enabled: bool)
    ensures
        enabled == match setting {
            None => false,
            Some(value) => value@ == "1"@ || same_ignoring_case(value@, "true"@)
                || same_ignoring_case(value@, "yes"@),
        },
{
    match setting {
        None => false,
        Some(value) => {
            let text: String = value.to_owned();
            let one: String = "1".to_owned();
            text == one || equal_ignoring_case(value, "true") || equal_ignoring_case(value, "yes")
        },
    }
}

/// The name of a stage of a layer: the layer with at least two digits.
pub open spec fn stage_text(layer: usize, name: Seq<char>) -> Seq<char> {
    (if layer < 10 {
        "layer_0"@
    } else {
        "layer_"@
    }) + decimal(layer as nat) + name
}

/// The name of a stage of a layer.
pub fn stage_name(layer: usize, name: &str) -> (text: String)
    ensures
        text@ == stage_text(layer, name@),
{
    if layer < 10 {
        Text::start("layer_0").size(layer).text(name).finish()
    } else {
        Text::start("layer_").size(layer).text(name).finish()
    }
}

/// Every token of the grid is averaged, in the block that it lies in: the blocks leave no token out.
pub proof fn every_token_is_pooled(merge: int, across: int, down: int, y: int, x: int)
    requires
        merge > 0,
        across % merge == 0,
        down % merge == 0,
        0 <= y < down,
        0 <= x < across,
    ensures
        ({
            let block = (y / merge) * (across / merge) + x / merge;
            let place = (y % merge) * merge + x % merge;
            &&& 0 <= block < (down / merge) * (across / merge)
            &&& 0 <= place < merge * merge
            &&& pool_source(block, place, merge, across, across / merge) == y * across + x
        }),
{
    let out_w = across / merge;
    let out_h = down / merge;
    vstd::arithmetic::div_mod::lemma_fundamental_div_mod(across, merge);
    vstd::arithmetic::div_mod::lemma_fundamental_div_mod(down, merge);
    assert(out_w * merge == merge * out_w) by (nonlinear_arith);
    assert(out_h * merge == merge * out_h) by (nonlinear_arith);
    lemma_place_row_of(out_h, merge, y);
    lemma_place_row_of(out_w, merge, x);
    lemma_row_place(out_h, out_w, y / merge, x / merge);
    lemma_row_place(merge, merge, y % merge, x % merge);
}

proof fn lemma_place_row_of(rows: int, width: int, place: int)
    requires
        0 < width,
        0 <= place < rows * width,
    ensures
        0 <= place / width < rows,
        0 <= place % width < width,
        place == (place / width) * width + place % width,
{
    assert(rows >= 0) by (nonlinear_arith)
        requires
            0 < width,
            0 < rows * width,
    ;
    lemma_place_row(rows, width, place);
}

/// Metadata is accepted exactly where its dimensions are positive, heads and patches divide their
/// wholes, colours have three values, and kernels and positions can be counted. The encoder has
/// these dimensions.
pub proof fn gemma_metadata_gives_the_dimensions(meta: VisionMetadata, target_dim: usize)
    ensures
        gemma_metadata(meta, target_dim) is Ok <==> {
            let dim = meta.embedding_length as usize;
            let patch = meta.patch_size as usize;
            let side = (meta.image_size as usize) as int / patch as int;
            &&& meta.image_mean matches Some(mean) ==> mean@.len() >= 3
            &&& meta.image_std matches Some(std_dev) ==> std_dev@.len() >= 3
            &&& dim > 0
            &&& (meta.head_count as usize) > 0
            &&& (meta.feed_forward_length as usize) > 0
            &&& (meta.block_count as usize) > 0
            &&& patch > 0
            &&& (meta.scale_factor as usize) > 0
            &&& dim as int % (meta.head_count as usize) as int == 0
            &&& (meta.image_size as usize) as int % patch as int == 0
            &&& patch * patch * 3 * dim <= usize::MAX
            &&& side * side <= usize::MAX
        },
        gemma_metadata(meta, target_dim) matches Ok(config) ==> {
            &&& config.dim == meta.embedding_length as usize
            &&& config.head_count == meta.head_count as usize
            &&& config.head_dim * config.head_count == config.dim
            &&& config.ff_dim == meta.feed_forward_length as usize
            &&& config.n_layers == meta.block_count as usize
            &&& config.eps == meta.layer_norm_epsilon
            &&& config.patch_size == meta.patch_size as usize
            &&& config.base_image_size == meta.image_size as usize
            &&& config.merge_factor == meta.scale_factor as usize
            &&& meta.image_mean matches Some(mean) ==> config.image_mean == (
                mean@[0],
                mean@[1],
                mean@[2],
            )
            &&& meta.image_std matches Some(std_dev) ==> config.image_std == (
                std_dev@[0],
                std_dev@[1],
                std_dev@[2],
            )
            &&& meta.image_mean is None ==> config.image_mean == (
                0x3f00_0000u32,
                0x3f00_0000u32,
                0x3f00_0000u32,
            )
            &&& meta.image_std is None ==> config.image_std == (
                0x3f00_0000u32,
                0x3f00_0000u32,
                0x3f00_0000u32,
            )
            &&& config.use_gelu == meta.use_gelu
            &&& config.target_dim == target_dim
        },
{
    let dim = (meta.embedding_length as usize) as int;
    let heads = (meta.head_count as usize) as int;
    if heads > 0 {
        vstd::arithmetic::div_mod::lemma_fundamental_div_mod(dim, heads);
        vstd::arithmetic::div_mod::lemma_div_pos_is_pos(dim, heads);
        vstd::arithmetic::div_mod::lemma_div_is_ordered_by_denominator(dim, 1, heads);
        assert((dim / heads) * heads == heads * (dim / heads)) by (nonlinear_arith);
    }
}

/// An encoder holds the tensors of its sidecar in order: the patch kernels and their bias, the
/// position table, the last norm, the matrix and the norm of the projector, and sixteen tensors for
/// each layer. The matrix of the projector is stored with the width of text first.
pub proof fn gemma_encoders_hold_their_tensors_in_order(
    meta: VisionMetadata,
    gguf: TensorDirectory,
    target_dim: usize,
)
    ensures
        gemma_outcome(meta, gguf, target_dim) matches Ok(encoder) ==> {
            let config = encoder.config;
            let all = encoder.tensors;
            let dim = config.dim;
            let vector = Rule::Floats(Some(dim));
            let kernels = (config.patch_size * config.patch_size * 3 * dim) as usize;
            let side = config.base_image_size as int / config.patch_size as int;
            let layers = vision_layers_asked(
                MatrixCheck::Elements,
                config.n_layers as nat,
                dim,
                config.ff_dim,
            );
            &&& gemma_metadata(meta, target_dim) == Ok::<GemmaConfig, Seq<char>>(config)
            &&& all.len() == 7 + layers.len()
            &&& loaded_at(all, gguf, 0, "v.patch_embd.weight"@, Rule::Floats(Some(kernels)))
            &&& loaded_at(all, gguf, 1, "v.patch_embd.bias"@, vector)
            &&& loaded_at(
                all,
                gguf,
                2,
                "v.position_embd.weight"@,
                Rule::Floats(Some((side * side * dim) as usize)),
            )
            &&& loaded_at(all, gguf, 3, "v.post_ln.weight"@, vector)
            &&& loaded_at(all, gguf, 4, "v.post_ln.bias"@, vector)
            &&& loaded_at(
                all,
                gguf,
                5,
                "mm.input_projection.weight"@,
                Rule::Floats(Some((target_dim * dim) as usize)),
            )
            &&& loaded_at(all, gguf, 6, "mm.soft_emb_norm.weight"@, vector)
            &&& forall|i: int|
                0 <= i < layers.len() ==> loaded_at(
                    all,
                    gguf,
                    7 + i,
                    (#[trigger] layers[i]).0,
                    layers[i].1,
                )
            &&& find_by_name(gguf.tensors@, "mm.input_projection.weight"@) matches Some(tensor)
                && tensor.n_dims >= 2 && tensor.ne@[0] as usize == target_dim && tensor.ne@[1]
                as usize == dim
        },
{
    match gemma_metadata(meta, target_dim) {
        Ok(config) => {
            let kernels = gemma_kernels(config);
            let tables = gemma_tables(config);
            let rest = gemma_rest(config);
            let layers = vision_layers_asked(
                MatrixCheck::Elements,
                config.n_layers as nat,
                config.dim,
                config.ff_dim,
            );
            further_tensors_follow(gguf, Seq::empty(), kernels);
            match with_tensors(gguf.tensors@, gguf.mapped_len, Seq::empty(), kernels) {
                Ok(first) => {
                    further_tensors_follow(gguf, first, tables);
                    assert(kernels[0].0 == "v.patch_embd.weight"@);
                    assert(kernels[1].0 == "v.patch_embd.bias"@);
                    match with_tensors(gguf.tensors@, gguf.mapped_len, first, tables) {
                        Ok(second) => {
                            further_tensors_follow(gguf, second, rest);
                            assert(tables[0].0 == "v.position_embd.weight"@);
                            assert(tables[1].0 == "v.post_ln.weight"@);
                            assert(tables[2].0 == "v.post_ln.bias"@);
                            assert(rest[0].0 == "mm.input_projection.weight"@);
                            assert(rest[1].0 == "mm.soft_emb_norm.weight"@);
                            assert(rest.len() == 2 + layers.len());
                            assert(forall|i: int|
                                0 <= i < layers.len() ==> rest[2 + i] == #[trigger] layers[i]);
                        },
                        Err(_) => {},
                    }
                },
                Err(_) => {},
            }
        },
        Err(_) => {},
    }
}

} // verus!
