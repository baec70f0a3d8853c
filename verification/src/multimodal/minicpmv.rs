//! A vision encoder that merges two by two patches in the middle of its tower and once more on the
//! way into the projector.
use super::vision::{
    ask_vision_layers, colour, colour_text, kernel_values, keys_give, number_as_size,
    parse_rgb_triplet, patch_kernel_elements, size_of_number, vision_layers_asked, with_defaults,
    MatrixCheck, VisionKeys, VisionMetadata,
};
use crate::gguf::{find_by_name, find_gguf_tensor, TensorDirectory};
use crate::parallel::{par_fill_rows, RowSource};
use crate::tables::{lemma_place_row, lemma_row_place};
use crate::tensors::{
    ask, asked, further_tensors_follow, load_more, loaded_at, requests_fit, with_tensors, Loaded,
    Requirement, Rule, TensorError, TensorProblem,
};
use crate::text::{decimal, signed_decimal, Text};
use vstd::arithmetic::div_mod::lemma_fundamental_div_mod_converse;
use vstd::prelude::*;

verus! {

/// The image size where none is given.
pub const DEFAULT_IMAGE_SIZE: i64 = 448;

/// The merge factor of both stages together, in each direction.
pub const SUPPORTED_MERGE_FACTOR: usize = 4;

/// The number of tokens that each stage merges into one.
pub const MERGE_GROUP: usize = 4;

/// The number of tokens that one pass through the tower may carry, unless a single view has more.
pub const MAX_BATCH_TOKENS: usize = 16_384;

/// Why a sidecar or an image is not accepted.
#[derive(Debug)]
pub enum MiniCpmError {
    Colour(String),
    Metadata,
    MergeFactor(usize),
    Heads { dim: usize, head_count: usize },
    MergedOverflow,
    NoInsertion,
    Insertion(i64),
    InsertionTooLate { layer: usize, layers: usize },
    KernelOverflow,
    Tensor(TensorError),
    PositionValues { values: usize, dim: usize },
    PositionGrid { positions: usize },
    EmptyOutput(String),
    ImageSize { path: String, width: usize, height: usize, align: usize },
    EmptyGrid { path: String, across: usize, down: usize },
    NoPatches(String),
}

/// The text of an image that is not cut into whole groups of patches.
pub open spec fn image_size_text(path: Seq<char>, width: usize, height: usize, align: usize) -> Seq<
    char,
> {
    "image '"@ + path + "' size "@ + decimal(width as nat) + "x"@ + decimal(height as nat)
        + " is not a multiple of patch_size*4="@ + decimal(align as nat)
        + "; both 2x2 merge stages need an even patch grid"@
}

/// The text of an image without patches.
pub open spec fn empty_grid_text(path: Seq<char>, across: usize, down: usize) -> Seq<char> {
    "image '"@ + path + "' produced an empty patch grid ("@ + decimal(across as nat) + "x"@
        + decimal(down as nat) + ")"@
}

impl MiniCpmError {
    /// The message text of the error.
    pub open spec fn text(self) -> Seq<char> {
        match self {
            MiniCpmError::Colour(text) => text@,
            MiniCpmError::Metadata =>
                "invalid minicpmv mmproj metadata: one or more required clip.vision.* keys are missing or zero"@,
            MiniCpmError::MergeFactor(got) => "unsupported MiniCPM-V merge factor "@ + decimal(
                got as nat,
            ) + ": this backend implements clip.vision.projector.scale_factor=4"@,
            MiniCpmError::Heads { dim, head_count } => "invalid minicpmv mmproj: dim "@ + decimal(
                dim as nat,
            ) + " not divisible by head_count "@ + decimal(head_count as nat),
            MiniCpmError::MergedOverflow => "minicpmv merged dim overflow"@,
            MiniCpmError::NoInsertion =>
                "minicpmv mmproj is missing clip.vision.wa_layer_indexes, which carries the ViT merger insertion point"@,
            MiniCpmError::Insertion(got) => "invalid minicpmv merger insertion point "@
                + signed_decimal(got as int),
            MiniCpmError::InsertionTooLate { layer, layers } =>
                "minicpmv merger insertion point "@ + decimal(layer as nat)
                    + " leaves no tower layers after the merge (block_count="@ + decimal(
                    layers as nat,
                ) + ")"@,
            MiniCpmError::KernelOverflow => "patch kernel element count overflow"@,
            MiniCpmError::Tensor(error) => error.problem.text(error.name@),
            MiniCpmError::PositionValues { values, dim } => "v.position_embd.weight holds "@
                + decimal(values as nat) + " values, not a multiple of dim "@ + decimal(
                dim as nat,
            ),
            MiniCpmError::PositionGrid { positions } => "v.position_embd.weight holds "@ + decimal(
                positions as nat,
            ) + " positions, which is not a square bucket grid"@,
            MiniCpmError::EmptyOutput(name) => name@ + " has an empty output width"@,
            MiniCpmError::ImageSize { path, width, height, align } => image_size_text(
                path@,
                width,
                height,
                align,
            ),
            MiniCpmError::EmptyGrid { path, across, down } => empty_grid_text(path@, across, down),
            MiniCpmError::NoPatches(path) => "image '"@ + path@
                + "' produced an empty patch grid"@,
        }
    }

    /// The message text of the error.
    pub fn message(&self) -> (message: String)
        ensures
            message@ == self.text(),
    {
        match self {
            MiniCpmError::Colour(text) => Text::start(text.as_str()).finish(),
            MiniCpmError::Metadata => Text::start(
                "invalid minicpmv mmproj metadata: one or more required clip.vision.* keys are missing or zero",
            ).finish(),
            MiniCpmError::MergeFactor(got) => Text::start(
                "unsupported MiniCPM-V merge factor ",
            ).size(*got).text(
                ": this backend implements clip.vision.projector.scale_factor=4",
            ).finish(),
            MiniCpmError::Heads { dim, head_count } => Text::start(
                "invalid minicpmv mmproj: dim ",
            ).size(*dim).text(" not divisible by head_count ").size(*head_count).finish(),
            MiniCpmError::MergedOverflow => Text::start("minicpmv merged dim overflow").finish(),
            MiniCpmError::NoInsertion => Text::start(
                "minicpmv mmproj is missing clip.vision.wa_layer_indexes, which carries the ViT merger insertion point",
            ).finish(),
            MiniCpmError::Insertion(got) => Text::start(
                "invalid minicpmv merger insertion point ",
            ).signed(*got).finish(),
            MiniCpmError::InsertionTooLate { layer, layers } => Text::start(
                "minicpmv merger insertion point ",
            ).size(*layer).text(" leaves no tower layers after the merge (block_count=").size(
                *layers,
            ).text(")").finish(),
            MiniCpmError::KernelOverflow => Text::start(
                "patch kernel element count overflow",
            ).finish(),
            MiniCpmError::Tensor(error) => error.message(),
            MiniCpmError::PositionValues { values, dim } => Text::start(
                "v.position_embd.weight holds ",
            ).size(*values).text(" values, not a multiple of dim ").size(*dim).finish(),
            MiniCpmError::PositionGrid { positions } => Text::start(
                "v.position_embd.weight holds ",
            ).size(*positions).text(" positions, which is not a square bucket grid").finish(),
            MiniCpmError::EmptyOutput(name) => Text::start(name.as_str()).text(
                " has an empty output width",
            ).finish(),
            MiniCpmError::ImageSize { path, width, height, align } => Text::start("image '").text(
                path.as_str(),
            ).text("' size ").size(*width).text("x").size(*height).text(
                " is not a multiple of patch_size*4=",
            ).size(*align).text("; both 2x2 merge stages need an even patch grid").finish(),
            MiniCpmError::EmptyGrid { path, across, down } => Text::start("image '").text(
                path.as_str(),
            ).text("' produced an empty patch grid (").size(*across).text("x").size(*down).text(
                ")",
            ).finish(),
            MiniCpmError::NoPatches(path) => Text::start("image '").text(path.as_str()).text(
                "' produced an empty patch grid",
            ).finish(),
        }
    }
}

/// The dimensions of the encoder.
#[derive(Clone, Copy, Debug)]
pub struct MiniCpmConfig {
    pub dim: usize,
    pub head_count: usize,
    pub head_dim: usize,
    pub ff_dim: usize,
    pub n_layers: usize,
    /// The bit pattern of the layer norm epsilon.
    pub eps: u32,
    pub patch_size: usize,
    pub image_size: usize,
    pub merged_dim: usize,
    pub pos_grid: usize,
    pub insert_layer_id: usize,
    pub image_mean: (u32, u32, u32),
    pub image_std: (u32, u32, u32),
    pub use_gelu: bool,
    pub ds_ff_dim: usize,
    pub hidden_dim: usize,
    pub target_dim: usize,
}

/// The layer behind which the merger is spliced in.
pub open spec fn insertion(meta: VisionMetadata) -> Option<i64> {
    match meta.wa_layer_indexes {
        None => None,
        Some(list) => if list@.len() == 0 {
            None
        } else {
            Some(list@[0])
        },
    }
}

/// The merge factor of the metadata; a negative number counts as zero.
pub open spec fn merge_factor(meta: VisionMetadata) -> usize {
    if meta.scale_factor < 0 {
        0
    } else {
        size_of_number(meta.scale_factor)
    }
}

/// The metadata of a sidecar from its keys: a missing patch size is 14, a missing image size 448, a
/// missing scale factor 4, a missing epsilon one millionth, and a missing activation choice GELU.
/// Other missing numbers are zero.
pub fn minicpm_key_values(keys: VisionKeys) -> (meta: VisionMetadata)
    ensures
        keys_give(keys, DEFAULT_IMAGE_SIZE, meta),
{
    with_defaults(keys, DEFAULT_IMAGE_SIZE)
}

/// What the metadata of a sidecar gives: the dimensions as far as metadata says them, or the text
/// of the first thing that is wrong.
pub open spec fn minicpm_metadata(meta: VisionMetadata, target_dim: usize) -> Result<
    MiniCpmConfig,
    Seq<char>,
> {
    let dim = size_of_number(meta.embedding_length);
    let head_count = size_of_number(meta.head_count);
    let ff_dim = size_of_number(meta.feed_forward_length);
    let n_layers = size_of_number(meta.block_count);
    let patch_size = size_of_number(meta.patch_size);
    if colour(meta.image_mean) is None {
        Err(colour_text("clip.vision.image_mean"@, meta.image_mean))
    } else if colour(meta.image_std) is None {
        Err(colour_text("clip.vision.image_std"@, meta.image_std))
    } else if dim == 0 || head_count == 0 || ff_dim == 0 || n_layers == 0 || patch_size == 0 {
        Err(MiniCpmError::Metadata.text())
    } else if merge_factor(meta) != SUPPORTED_MERGE_FACTOR {
        Err(MiniCpmError::MergeFactor(merge_factor(meta)).text())
    } else if dim as int % head_count as int != 0 {
        Err(MiniCpmError::Heads { dim, head_count }.text())
    } else if dim * 4 > usize::MAX {
        Err(MiniCpmError::MergedOverflow.text())
    } else {
        match insertion(meta) {
            None => Err(MiniCpmError::NoInsertion.text()),
            Some(layer) => if layer < 0 || layer > usize::MAX {
                Err(MiniCpmError::Insertion(layer).text())
            } else if layer + 1 >= n_layers {
                Err(
                    MiniCpmError::InsertionTooLate {
                        layer: layer as usize,
                        layers: n_layers,
                    }.text(),
                )
            } else if kernel_values(patch_size as int, dim as int) > usize::MAX {
                Err(MiniCpmError::KernelOverflow.text())
            } else {
                Ok(
                    MiniCpmConfig {
                        dim,
                        head_count,
                        head_dim: (dim as int / head_count as int) as usize,
                        ff_dim,
                        n_layers,
                        eps: meta.layer_norm_epsilon,
                        patch_size,
                        image_size: size_of_number(meta.image_size),
                        merged_dim: (dim * 4) as usize,
                        pos_grid: 0,
                        insert_layer_id: layer as usize,
                        image_mean: colour(meta.image_mean)->Some_0,
                        image_std: colour(meta.image_std)->Some_0,
                        use_gelu: meta.use_gelu,
                        ds_ff_dim: 0,
                        hidden_dim: 0,
                        target_dim,
                    },
                )
            },
        }
    }
}

/// Reads the metadata of a sidecar.
pub fn parse_minicpm_metadata(meta: &VisionMetadata, target_dim: usize) -> (result: Result<
    MiniCpmConfig,
    MiniCpmError,
>)
    ensures
        match result {
            Ok(config) => {
                &&& minicpm_metadata(*meta, target_dim) == Ok::<MiniCpmConfig, Seq<char>>(config)
                &&& config.dim > 0
                &&& config.patch_size > 0
                &&& config.patch_size * config.patch_size * 3 <= usize::MAX
                &&& kernel_values(config.patch_size as int, config.dim as int) <= usize::MAX
            },
            Err(error) => minicpm_metadata(*meta, target_dim) == Err::<MiniCpmConfig, Seq<char>>(
                error.text(),
            ),
        },
{
    let dim: usize = number_as_size(meta.embedding_length);
    let head_count: usize = number_as_size(meta.head_count);
    let ff_dim: usize = number_as_size(meta.feed_forward_length);
    let n_layers: usize = number_as_size(meta.block_count);
    let patch_size: usize = number_as_size(meta.patch_size);
    let factor: usize = if meta.scale_factor < 0 {
        0
    } else {
        number_as_size(meta.scale_factor)
    };
    let image_mean = match parse_rgb_triplet(&meta.image_mean, "clip.vision.image_mean") {
        Ok(triplet) => triplet,
        Err(text) => return Err(MiniCpmError::Colour(text)),
    };
    let image_std = match parse_rgb_triplet(&meta.image_std, "clip.vision.image_std") {
        Ok(triplet) => triplet,
        Err(text) => return Err(MiniCpmError::Colour(text)),
    };
    if dim == 0 || head_count == 0 || ff_dim == 0 || n_layers == 0 || patch_size == 0 {
        return Err(MiniCpmError::Metadata);
    }
    if factor != SUPPORTED_MERGE_FACTOR {
        return Err(MiniCpmError::MergeFactor(factor));
    }
    if dim % head_count != 0 {
        return Err(MiniCpmError::Heads { dim, head_count });
    }
    let merged_dim: usize = match dim.checked_mul(MERGE_GROUP) {
        Some(n) => n,
        None => return Err(MiniCpmError::MergedOverflow),
    };
    let layer: i64 = match &meta.wa_layer_indexes {
        None => return Err(MiniCpmError::NoInsertion),
        Some(list) => {
            if list.len() == 0 {
                return Err(MiniCpmError::NoInsertion);
            }
            list[0]
        },
    };
    if layer < 0 || layer as u64 > usize::MAX as u64 {
        return Err(MiniCpmError::Insertion(layer));
    }
    let insert_layer_id: usize = layer as usize;
    if insert_layer_id >= n_layers - 1 {
        return Err(MiniCpmError::InsertionTooLate { layer: insert_layer_id, layers: n_layers });
    }
    match patch_kernel_elements(patch_size, dim) {
        Some(_) => {},
        None => return Err(MiniCpmError::KernelOverflow),
    }
    Ok(
        MiniCpmConfig {
            dim,
            head_count,
            head_dim: dim / head_count,
            ff_dim,
            n_layers,
            eps: meta.layer_norm_epsilon,
            patch_size,
            image_size: number_as_size(meta.image_size),
            merged_dim,
            pos_grid: 0,
            insert_layer_id,
            image_mean,
            image_std,
            use_gelu: meta.use_gelu,
            ds_ff_dim: 0,
            hidden_dim: 0,
            target_dim,
        },
    )
}

/// The side of a square of the given area.
pub fn square_side(area: usize) -> (side: Option<usize>)
    ensures
        match side {
            Some(s) => s > 0 && s * s == area,
            None => forall|s: int| s > 0 ==> #[trigger] (s * s) != area,
        },
{
    let mut s: usize = 1;
    while s <= area / s
        invariant
            s >= 1,
            forall|r: int| 0 < r < s ==> #[trigger] (r * r) != area,
        decreases area + 1 - s,
    {
        proof {
            let q = area as int / s as int;
            vstd::arithmetic::div_mod::lemma_fundamental_div_mod(area as int, s as int);
            assert(s * s <= s * q) by (nonlinear_arith)
                requires
                    s <= q,
                    s >= 1,
            ;
            assert(s <= s * s) by (nonlinear_arith)
                requires
                    s >= 1,
            ;
        }
        if s * s == area {
            return Some(s);
        }
        assert(s < area) by (nonlinear_arith)
            requires
                s <= s * s,
                s * s <= area,
                s * s != area,
        ;
        s = s + 1;
    }
    proof {
        let q = area as int / s as int;
        vstd::arithmetic::div_mod::lemma_fundamental_div_mod(area as int, s as int);
        let rest = area as int % s as int;
        assert forall|r: int| r > 0 implies #[trigger] (r * r) != area by {
            if r >= s {
                assert(r * r > area) by (nonlinear_arith)
                    requires
                        r >= s,
                        s >= 1,
                        q < s,
                        area == s * q + rest,
                        0 <= rest < s,
                ;
            }
        }
    }
    None
}

/// Whether a number is that of a square with a side.
pub open spec fn is_square(area: int) -> bool {
    exists|s: int| s > 0 && #[trigger] (s * s) == area
}

/// The first tensors: patch kernels and bias, and the position table.
pub open spec fn minicpm_first(config: MiniCpmConfig) -> Seq<(Seq<char>, Rule)> {
    seq![
        (
            "v.patch_embd.weight"@,
            Rule::Floats(
                Some(kernel_values(config.patch_size as int, config.dim as int) as usize),
            ),
        ),
        ("v.patch_embd.bias"@, Rule::Floats(Some(config.dim))),
        ("v.position_embd.weight"@, Rule::Floats(None)),
    ]
}

/// The last norm and the layers.
pub open spec fn minicpm_tower(config: MiniCpmConfig) -> Seq<(Seq<char>, Rule)> {
    seq![
        ("v.post_ln.weight"@, Rule::Floats(Some(config.dim))),
        ("v.post_ln.bias"@, Rule::Floats(Some(config.dim))),
    ] + vision_layers_asked(
        MatrixCheck::Extents,
        config.n_layers as nat,
        config.dim,
        config.ff_dim,
    )
}

/// The tensors of the merger.
pub open spec fn minicpm_merger(config: MiniCpmConfig) -> Seq<(Seq<char>, Rule)> {
    let dim = config.dim;
    let vector = Rule::Floats(Some(dim));
    let square = Rule::Projection { in_dim: dim, out_dim: dim };
    let wide = Rule::Floats(Some(config.merged_dim));
    seq![
        ("v.vit_merger.ln1.weight"@, vector),
        ("v.vit_merger.ln1.bias"@, vector),
        ("v.vit_merger.attn_q.weight"@, square),
        ("v.vit_merger.attn_q.bias"@, vector),
        ("v.vit_merger.attn_k.weight"@, square),
        ("v.vit_merger.attn_k.bias"@, vector),
        ("v.vit_merger.attn_v.weight"@, square),
        ("v.vit_merger.attn_v.bias"@, vector),
        ("v.vit_merger.attn_out.weight"@, square),
        ("v.vit_merger.attn_out.bias"@, vector),
        ("v.vit_merger.ds_ln.weight"@, wide),
        ("v.vit_merger.ds_ln.bias"@, wide),
        (
            "v.vit_merger.ds_ffn_up.weight"@,
            Rule::Projection { in_dim: config.merged_dim, out_dim: config.ds_ff_dim },
        ),
        ("v.vit_merger.ds_ffn_up.bias"@, Rule::Floats(Some(config.ds_ff_dim))),
        (
            "v.vit_merger.ds_ffn_down.weight"@,
            Rule::Projection { in_dim: config.ds_ff_dim, out_dim: dim },
        ),
        ("v.vit_merger.ds_ffn_down.bias"@, vector),
    ]
}

/// The tensors of the projector.
pub open spec fn minicpm_projector(config: MiniCpmConfig) -> Seq<(Seq<char>, Rule)> {
    seq![
        ("mm.input_norm.weight"@, Rule::Floats(Some(config.merged_dim))),
        ("mm.input_norm.bias"@, Rule::Floats(Some(config.merged_dim))),
        (
            "mm.up.weight"@,
            Rule::Projection { in_dim: config.merged_dim, out_dim: config.hidden_dim },
        ),
        ("mm.up.bias"@, Rule::Floats(Some(config.hidden_dim))),
        (
            "mm.down.weight"@,
            Rule::Projection { in_dim: config.hidden_dim, out_dim: config.target_dim },
        ),
        ("mm.down.bias"@, Rule::Floats(Some(config.target_dim))),
    ]
}

/// The encoder of a sidecar: its dimensions and its tensors in order.
#[verifier::ext_equal]
pub struct MiniCpmView {
    pub config: MiniCpmConfig,
    pub tensors: Seq<Loaded>,
}

/// The output width of a matrix, or the text of what is wrong.
pub open spec fn output_width(gguf: TensorDirectory, name: Seq<char>) -> Result<usize, Seq<char>> {
    match find_by_name(gguf.tensors@, name) {
        None => Err(TensorProblem::NotFound.text(name)),
        Some(tensor) => if tensor.ne@[1] as usize == 0 {
            Err(name + " has an empty output width"@)
        } else {
            Ok(tensor.ne@[1] as usize)
        },
    }
}

fn find_output_width(gguf: &TensorDirectory, name: &str) -> (result: Result<usize, MiniCpmError>)
    ensures
        match result {
            Ok(width) => output_width(*gguf, name@) == Ok::<usize, Seq<char>>(width),
            Err(error) => output_width(*gguf, name@) == Err::<usize, Seq<char>>(error.text()),
        },
{
    let wanted: String = name.to_owned();
    match find_gguf_tensor(gguf, &wanted) {
        None => Err(
            MiniCpmError::Tensor(TensorError { name: wanted, problem: TensorProblem::NotFound }),
        ),
        Some(tensor) => {
            let width: usize = #[verifier::truncate]
            (tensor.ne[1] as usize);
            if width == 0 {
                return Err(MiniCpmError::EmptyOutput(wanted));
            }
            Ok(width)
        },
    }
}

/// The number of values of a loaded tensor.
pub open spec fn values_of(tensor: Loaded) -> usize {
    match tensor {
        Loaded::Floats { elements, .. } => elements,
        _ => 0,
    }
}

fn count_values(tensor: Loaded) -> (count: usize)
    ensures
        count == values_of(tensor),
{
    match tensor {
        Loaded::Floats { elements, .. } => elements,
        _ => 0,
    }
}

/// The outcome once the merger and the projector are sized.
pub open spec fn minicpm_rest(
    gguf: TensorDirectory,
    config: MiniCpmConfig,
    so_far: Seq<Loaded>,
) -> Result<MiniCpmView, Seq<char>> {
    let tensors = gguf.tensors@;
    let mapped = gguf.mapped_len;
    match output_width(gguf, "v.vit_merger.ds_ffn_up.weight"@) {
        Err(text) => Err(text),
        Ok(ds_ff_dim) => {
            let merging = MiniCpmConfig { ds_ff_dim, ..config };
            match with_tensors(tensors, mapped, so_far, minicpm_merger(merging)) {
                Err(text) => Err(text),
                Ok(merged) => match output_width(gguf, "mm.up.weight"@) {
                    Err(text) => Err(text),
                    Ok(hidden_dim) => {
                        let full = MiniCpmConfig { hidden_dim, ..merging };
                        match with_tensors(tensors, mapped, merged, minicpm_projector(full)) {
                            Err(text) => Err(text),
                            Ok(all) => Ok(MiniCpmView { config: full, tensors: all }),
                        }
                    },
                },
            }
        },
    }
}

/// The outcome once the position table is loaded as the third tensor.
pub open spec fn minicpm_body(
    gguf: TensorDirectory,
    config: MiniCpmConfig,
    first: Seq<Loaded>,
    outcome: Result<MiniCpmView, Seq<char>>,
) -> bool {
    let values = values_of(first[2]);
    let positions = values as int / config.dim as int;
    if values as int % config.dim as int != 0 {
        outcome == Err::<MiniCpmView, Seq<char>>(
            MiniCpmError::PositionValues { values, dim: config.dim }.text(),
        )
    } else if !is_square(positions) {
        outcome == Err::<MiniCpmView, Seq<char>>(
            MiniCpmError::PositionGrid { positions: positions as usize }.text(),
        )
    } else {
        exists|side: usize|
            side > 0 && side * side == positions && outcome == #[trigger] minicpm_square(
                gguf,
                config,
                first,
                side,
            )
    }
}

/// The outcome with a square position table of the given side.
pub open spec fn minicpm_square(
    gguf: TensorDirectory,
    config: MiniCpmConfig,
    first: Seq<Loaded>,
    side: usize,
) -> Result<MiniCpmView, Seq<char>> {
    match with_tensors(gguf.tensors@, gguf.mapped_len, first, minicpm_tower(config)) {
        Err(text) => Err(text),
        Ok(tower) => minicpm_rest(gguf, MiniCpmConfig { pos_grid: side, ..config }, tower),
    }
}

/// Whether an outcome is that of loading a sidecar.
pub open spec fn minicpm_loads(
    meta: VisionMetadata,
    gguf: TensorDirectory,
    target_dim: usize,
    outcome: Result<MiniCpmView, Seq<char>>,
) -> bool {
    match minicpm_metadata(meta, target_dim) {
        Err(text) => outcome == Err::<MiniCpmView, Seq<char>>(text),
        Ok(config) => match with_tensors(
            gguf.tensors@,
            gguf.mapped_len,
            Seq::empty(),
            minicpm_first(config),
        ) {
            Err(text) => outcome == Err::<MiniCpmView, Seq<char>>(text),
            Ok(first) => minicpm_body(gguf, config, first, outcome),
        },
    }
}

/// Whether the tensors of the merger and the projector can be sized, as far as loading comes.
pub open spec fn minicpm_rest_fits(gguf: TensorDirectory, config: MiniCpmConfig) -> bool {
    let tensors = gguf.tensors@;
    let mapped = gguf.mapped_len;
    output_width(gguf, "v.vit_merger.ds_ffn_up.weight"@) matches Ok(ds_ff_dim) ==> {
        let merging = MiniCpmConfig { ds_ff_dim, ..config };
        &&& requests_fit(tensors, minicpm_merger(merging))
        &&& with_tensors(tensors, mapped, Seq::empty(), minicpm_merger(merging)) is Ok ==> (
        output_width(gguf, "mm.up.weight"@) matches Ok(hidden_dim) ==> requests_fit(
            tensors,
            minicpm_projector(MiniCpmConfig { hidden_dim, ..merging }),
        ))
    }
}

/// Whether the tensors that the encoder asks for can be sized, as far as loading comes.
pub open spec fn minicpm_fits(gguf: TensorDirectory, config: MiniCpmConfig) -> bool {
    let tensors = gguf.tensors@;
    let mapped = gguf.mapped_len;
    &&& requests_fit(tensors, minicpm_first(config))
    &&& with_tensors(tensors, mapped, Seq::empty(), minicpm_first(config)) matches Ok(first) ==> {
        let values = values_of(first[2]);
        values as int % config.dim as int == 0 && is_square(values as int / config.dim as int) ==> {
            &&& requests_fit(tensors, minicpm_tower(config))
            &&& with_tensors(tensors, mapped, Seq::empty(), minicpm_tower(config)) is Ok
                ==> minicpm_rest_fits(gguf, config)
        }
    }
}

/// The vision encoder: its dimensions and its tensors. The tensors are the patch kernels and
/// their bias, the position table, the last norm, those of the layers, the merger and the
/// projector.
#[derive(Debug)]
pub struct MiniCpmVVisionEncoder {
    pub config: MiniCpmConfig,
    pub tensors: Vec<Loaded>,
}

impl View for MiniCpmVVisionEncoder {
    type V = MiniCpmView;

    open spec fn view(&self) -> MiniCpmView {
        MiniCpmView { config: self.config, tensors: self.tensors@ }
    }
}

/// The outcome of loading as a view, with the text of the error.
pub open spec fn outcome_of(result: Result<MiniCpmVVisionEncoder, MiniCpmError>) -> Result<
    MiniCpmView,
    Seq<char>,
> {
    match result {
        Ok(encoder) => Ok(encoder@),
        Err(error) => Err(error.text()),
    }
}

fn ask_merger(config: MiniCpmConfig) -> (list: Vec<Requirement>)
    ensures
        asked(list@) == minicpm_merger(config),
{
    let dim: usize = config.dim;
    let vector = Rule::Floats(Some(dim));
    let square = Rule::Projection { in_dim: dim, out_dim: dim };
    let wide = Rule::Floats(Some(config.merged_dim));
    let mut list: Vec<Requirement> = Vec::new();
    ask(&mut list, "v.vit_merger.ln1.weight", vector);
    ask(&mut list, "v.vit_merger.ln1.bias", vector);
    ask(&mut list, "v.vit_merger.attn_q.weight", square);
    ask(&mut list, "v.vit_merger.attn_q.bias", vector);
    ask(&mut list, "v.vit_merger.attn_k.weight", square);
    ask(&mut list, "v.vit_merger.attn_k.bias", vector);
    ask(&mut list, "v.vit_merger.attn_v.weight", square);
    ask(&mut list, "v.vit_merger.attn_v.bias", vector);
    ask(&mut list, "v.vit_merger.attn_out.weight", square);
    ask(&mut list, "v.vit_merger.attn_out.bias", vector);
    ask(&mut list, "v.vit_merger.ds_ln.weight", wide);
    ask(&mut list, "v.vit_merger.ds_ln.bias", wide);
    ask(
        &mut list,
        "v.vit_merger.ds_ffn_up.weight",
        Rule::Projection { in_dim: config.merged_dim, out_dim: config.ds_ff_dim },
    );
    ask(&mut list, "v.vit_merger.ds_ffn_up.bias", Rule::Floats(Some(config.ds_ff_dim)));
    ask(
        &mut list,
        "v.vit_merger.ds_ffn_down.weight",
        Rule::Projection { in_dim: config.ds_ff_dim, out_dim: dim },
    );
    ask(&mut list, "v.vit_merger.ds_ffn_down.bias", vector);
    assert(asked(list@) =~= minicpm_merger(config));
    list
}

fn ask_projector(config: MiniCpmConfig) -> (list: Vec<Requirement>)
    ensures
        asked(list@) == minicpm_projector(config),
{
    let mut list: Vec<Requirement> = Vec::new();
    ask(&mut list, "mm.input_norm.weight", Rule::Floats(Some(config.merged_dim)));
    ask(&mut list, "mm.input_norm.bias", Rule::Floats(Some(config.merged_dim)));
    ask(
        &mut list,
        "mm.up.weight",
        Rule::Projection { in_dim: config.merged_dim, out_dim: config.hidden_dim },
    );
    ask(&mut list, "mm.up.bias", Rule::Floats(Some(config.hidden_dim)));
    ask(
        &mut list,
        "mm.down.weight",
        Rule::Projection { in_dim: config.hidden_dim, out_dim: config.target_dim },
    );
    ask(&mut list, "mm.down.bias", Rule::Floats(Some(config.target_dim)));
    assert(asked(list@) =~= minicpm_projector(config));
    list
}

fn load_rest(gguf: &TensorDirectory, config: MiniCpmConfig, mut loaded: Vec<Loaded>) -> (result:
    Result<MiniCpmVVisionEncoder, MiniCpmError>)
    requires
        minicpm_rest_fits(*gguf, config),
    ensures
        outcome_of(result) == minicpm_rest(*gguf, config, loaded@),
        result matches Ok(encoder) ==> encoder.config.patch_size == config.patch_size
            && encoder.config.dim == config.dim,
{
    let ds_ff_dim: usize = match find_output_width(gguf, "v.vit_merger.ds_ffn_up.weight") {
        Ok(width) => width,
        Err(error) => return Err(error),
    };
    let merging = MiniCpmConfig { ds_ff_dim, ..config };
    let merger = ask_merger(merging);
    match load_more(gguf, &merger, &mut loaded) {
        Ok(_) => {},
        Err(error) => return Err(MiniCpmError::Tensor(error)),
    }
    let hidden_dim: usize = match find_output_width(gguf, "mm.up.weight") {
        Ok(width) => width,
        Err(error) => return Err(error),
    };
    let full = MiniCpmConfig { hidden_dim, ..merging };
    let projector = ask_projector(full);
    match load_more(gguf, &projector, &mut loaded) {
        Ok(_) => {},
        Err(error) => return Err(MiniCpmError::Tensor(error)),
    }
    Ok(MiniCpmVVisionEncoder { config: full, tensors: loaded })
}

/// How an image is cut into patches: the number of patches of a row and the number of rows, or
/// the text of what is wrong.
pub open spec fn grid_outcome(
    patch_size: usize,
    width: usize,
    height: usize,
    path: Seq<char>,
) -> Result<(usize, usize), Seq<char>> {
    let align = patch_size * 4;
    let across = (width as int / patch_size as int) as usize;
    let down = (height as int / patch_size as int) as usize;
    if width as int % align != 0 || height as int % align != 0 {
        Err(image_size_text(path, width, height, align as usize))
    } else if across == 0 || down == 0 {
        Err(empty_grid_text(path, across, down))
    } else {
        Ok((across, down))
    }
}

impl MiniCpmVVisionEncoder {
    /// The patch size is not zero, and a patch has a machine number of values.
    pub open spec fn wf(&self) -> bool {
        self.config.patch_size > 0 && self.config.patch_size * self.config.patch_size * 3
            <= usize::MAX && self.config.dim > 0
    }

    /// The encoder of a sidecar.
    pub fn new(meta: &VisionMetadata, gguf: &TensorDirectory, target_dim: usize) -> (result: Result<
        MiniCpmVVisionEncoder,
        MiniCpmError,
    >)
        requires
            minicpm_metadata(*meta, target_dim) matches Ok(config) ==> minicpm_fits(*gguf, config),
        ensures
            minicpm_loads(*meta, *gguf, target_dim, outcome_of(result)),
            result matches Ok(encoder) ==> encoder.wf(),
    {
        let config = match parse_minicpm_metadata(meta, target_dim) {
            Ok(config) => config,
            Err(error) => return Err(error),
        };
        let kernel: usize = match patch_kernel_elements(config.patch_size, config.dim) {
            Some(n) => n,
            None => return Err(MiniCpmError::KernelOverflow),
        };
        let mut list: Vec<Requirement> = Vec::new();
        ask(&mut list, "v.patch_embd.weight", Rule::Floats(Some(kernel)));
        ask(&mut list, "v.patch_embd.bias", Rule::Floats(Some(config.dim)));
        ask(&mut list, "v.position_embd.weight", Rule::Floats(None));
        assert(asked(list@) =~= minicpm_first(config));
        let mut loaded: Vec<Loaded> = Vec::new();
        match load_more(gguf, &list, &mut loaded) {
            Ok(_) => {},
            Err(error) => return Err(MiniCpmError::Tensor(error)),
        }
        assert(Seq::<Loaded>::empty() + loaded@ =~= loaded@);
        let ghost first = loaded@;
        let values: usize = count_values(loaded[2]);
        if values % config.dim != 0 {
            return Err(MiniCpmError::PositionValues { values, dim: config.dim });
        }
        let positions: usize = values / config.dim;
        let side: usize = match square_side(positions) {
            Some(side) => side,
            None => {
                assert(!is_square(positions as int));
                return Err(MiniCpmError::PositionGrid { positions });
            },
        };
        assert(is_square(positions as int)) by {
            let s = side as int;
            assert(s > 0 && s * s == positions);
        }
        let mut tower: Vec<Requirement> = Vec::new();
        ask(&mut tower, "v.post_ln.weight", Rule::Floats(Some(config.dim)));
        ask(&mut tower, "v.post_ln.bias", Rule::Floats(Some(config.dim)));
        ask_vision_layers(
            &mut tower,
            MatrixCheck::Extents,
            config.n_layers,
            config.dim,
            config.ff_dim,
        );
        assert(asked(tower@) =~= minicpm_tower(config));
        match load_more(gguf, &tower, &mut loaded) {
            Ok(_) => {},
            Err(error) => {
                assert(Err::<MiniCpmView, Seq<char>>(error.problem.text(error.name@))
                    == minicpm_square(*gguf, config, first, side));
                return Err(MiniCpmError::Tensor(error));
            },
        }
        let result = load_rest(gguf, MiniCpmConfig { pos_grid: side, ..config }, loaded);
        assert(outcome_of(result) == minicpm_square(*gguf, config, first, side));
        result
    }

    /// The image size that the encoder was trained on.
    pub fn recommended_image_size(&self) -> (size: usize)
        ensures
            size == self.config.image_size,
    {
        self.config.image_size
    }

    /// What the extents of an image must be multiples of: both merge stages halve the patch grid.
    pub fn recommended_image_alignment(&self) -> (align: usize)
        requires
            self.wf(),
        ensures
            align == self.config.patch_size * 4,
    {
        let side: usize = self.config.patch_size;
        assert(side * 4 <= usize::MAX) by (nonlinear_arith)
            requires
                side * side * 3 <= usize::MAX,
                usize::MAX >= 0xffff_ffff,
        ;
        let align: usize = side * SUPPORTED_MERGE_FACTOR;
        if align > 1 {
            align
        } else {
            1
        }
    }

    /// The bit patterns of the mean and the deviation of each colour.
    pub fn recommended_image_normalization(&self) -> (normalization: (
        (u32, u32, u32),
        (u32, u32, u32),
    ))
        ensures
            normalization == (self.config.image_mean, self.config.image_std),
    {
        (self.config.image_mean, self.config.image_std)
    }

    /// How an image is cut into patches.
    pub fn patch_grid(&self, width: usize, height: usize, path: &str) -> (result: Result<
        (usize, usize),
        MiniCpmError,
    >)
        requires
            self.wf(),
        ensures
            match result {
                Ok(grid) => grid_outcome(self.config.patch_size, width, height, path@) == Ok::<
                    (usize, usize),
                    Seq<char>,
                >(grid),
                Err(error) => grid_outcome(self.config.patch_size, width, height, path@) == Err::<
                    (usize, usize),
                    Seq<char>,
                >(error.text()),
            },
    {
        let align: usize = self.recommended_image_alignment();
        if width % align != 0 || height % align != 0 {
            return Err(
                MiniCpmError::ImageSize { path: path.to_owned(), width, height, align },
            );
        }
        let across: usize = width / self.config.patch_size;
        let down: usize = height / self.config.patch_size;
        if across == 0 || down == 0 {
            return Err(MiniCpmError::EmptyGrid { path: path.to_owned(), across, down });
        }
        Ok((across, down))
    }

    /// The number of embeddings of a view.
    pub fn planned_view_tokens(&self, width: usize, height: usize) -> (result: Result<
        usize,
        MiniCpmError,
    >)
        requires
            self.wf(),
            grid_outcome(self.config.patch_size, width, height, "<planned>"@) matches Ok(
                (across, down),
            ) ==> (across as int / 4) * (down as int / 4) <= usize::MAX,
        ensures
            match grid_outcome(self.config.patch_size, width, height, "<planned>"@) {
                Ok((across, down)) => result matches Ok(count) && count == (across as int / 4) * (
                down as int / 4),
                Err(text) => result matches Err(error) && error.text() == text,
            },
    {
        match self.patch_grid(width, height, "<planned>") {
            Err(error) => Err(error),
            Ok((across, down)) => {
                let a: usize = across / SUPPORTED_MERGE_FACTOR;
                let d: usize = down / SUPPORTED_MERGE_FACTOR;
                assert(a * d >= 0) by (nonlinear_arith);
                Ok(a * d)
            },
        }
    }
}

/// The token at a place of the window order: the tokens of each two by two block follow each
/// other, row by row, the blocks row by row, and the views one after the other.
pub open spec fn windowed(place: int, ph: int, pw: int) -> int {
    let slot = place % 4;
    let window = place / 4;
    let per_view = (ph / 2) * (pw / 2);
    let local = window % per_view;
    block_token(window / per_view, local / (pw / 2), local % (pw / 2), slot, ph, pw)
}

/// The token of a slot of a block of a view.
pub open spec fn block_token(view: int, wi: int, wj: int, slot: int, ph: int, pw: int) -> int {
    (view * ph + 2 * wi + slot / 2) * pw + 2 * wj + slot % 2
}

/// The window order of views.
pub open spec fn window_sequence(views: int, ph: int, pw: int) -> Seq<usize> {
    Seq::new(
        (views * ((ph / 2) * (pw / 2)) * 4) as nat,
        |i: int| windowed(i, ph, pw) as usize,
    )
}

proof fn lemma_block_token(view: int, wi: int, wj: int, slot: int, views: int, ph: int, pw: int)
    requires
        0 <= view < views,
        0 <= wi < ph / 2,
        0 <= wj < pw / 2,
        0 <= slot < 4,
        0 <= ph,
        0 <= pw,
    ensures
        0 <= block_token(view, wi, wj, slot, ph, pw) < views * ph * pw,
        block_token(view, wi, wj, slot, ph, pw) % pw == 2 * wj + slot % 2,
        block_token(view, wi, wj, slot, ph, pw) / pw == view * ph + 2 * wi + slot / 2,
        (view * ph + 2 * wi + slot / 2) % ph == 2 * wi + slot / 2,
        (view * ph + 2 * wi + slot / 2) / ph == view,
{
    let y = 2 * wi + slot / 2;
    let x = 2 * wj + slot % 2;
    assert(0 <= y < ph && 0 <= x < pw);
    lemma_row_place(views, ph, view, y);
    lemma_row_place(views * ph, pw, view * ph + y, x);
}

proof fn lemma_windowed(place: int, views: int, ph: int, pw: int)
    requires
        0 <= place < views * ((ph / 2) * (pw / 2)) * 4,
        0 <= ph,
        0 <= pw,
        0 <= views,
    ensures
        0 <= windowed(place, ph, pw) < views * ph * pw,
        0 <= place / 4 < views * ((ph / 2) * (pw / 2)),
        0 <= (place / 4) / ((ph / 2) * (pw / 2)) < views,
        0 <= (place / 4) % ((ph / 2) * (pw / 2)) / (pw / 2) < ph / 2,
        0 <= (place / 4) % ((ph / 2) * (pw / 2)) % (pw / 2) < pw / 2,
{
    let per_view = (ph / 2) * (pw / 2);
    assert(per_view >= 0) by (nonlinear_arith)
        requires
            ph / 2 >= 0,
            pw / 2 >= 0,
            per_view == (ph / 2) * (pw / 2),
    ;
    assert(views * per_view >= 0) by (nonlinear_arith)
        requires
            views >= 0,
            per_view >= 0,
    ;
    lemma_place_row(views * per_view, 4, place);
    let window = place / 4;
    lemma_place_row(views, per_view, window);
    let local = window % per_view;
    lemma_place_row(ph / 2, pw / 2, local);
    lemma_block_token(
        window / per_view,
        local / (pw / 2),
        local % (pw / 2),
        place % 4,
        views,
        ph,
        pw,
    );
}

impl MiniCpmVVisionEncoder {
    /// The tokens of views in window order.
    pub fn window_order(views: usize, ph: usize, pw: usize) -> (order: Vec<usize>)
        requires
            views * ph * pw <= usize::MAX,
        ensures
            order@ == window_sequence(views as int, ph as int, pw as int),
    {
        let ghost target = window_sequence(views as int, ph as int, pw as int);
        let mut order: Vec<usize> = Vec::new();
        if views == 0 || ph < 2 || pw < 2 {
            proof {
                let per_view = (ph as int / 2) * (pw as int / 2);
                assert(per_view == 0 || views == 0) by (nonlinear_arith)
                    requires
                        per_view == (ph as int / 2) * (pw as int / 2),
                        views == 0 || ph as int / 2 == 0 || pw as int / 2 == 0,
                ;
                assert(views * per_view * 4 == 0) by (nonlinear_arith)
                    requires
                        per_view == 0 || views == 0,
                ;
                assert(order@ =~= target);
            }
            return order;
        }
        let half_w: usize = pw / 2;
        let half_h: usize = ph / 2;
        proof {
            assert(ph * pw <= views * ph * pw) by (nonlinear_arith)
                requires
                    views >= 1,
                    ph >= 0,
                    pw >= 0,
            ;
            assert(half_h * half_w * 4 <= ph * pw) by (nonlinear_arith)
                requires
                    half_h * 2 <= ph,
                    half_w * 2 <= pw,
                    half_h >= 0,
                    half_w >= 0,
            ;
            assert(half_h * half_w >= 0) by (nonlinear_arith);
            assert(views * (half_h * half_w) * 4 <= views * ph * pw) by (nonlinear_arith)
                requires
                    half_h * half_w * 4 <= ph * pw,
                    views >= 0,
            ;
            assert(views * (half_h * half_w) >= 0) by (nonlinear_arith)
                requires
                    half_h * half_w >= 0,
                    views >= 0,
            ;
        }
        let per_view: usize = half_h * half_w;
        let total: usize = views * per_view * 4;
        let mut i: usize = 0;
        assert(order@ =~= target.take(0));
        while i < total
            invariant
                i <= total,
                total == views * per_view * 4,
                per_view == (ph as int / 2) * (pw as int / 2),
                half_w == pw as int / 2,
                views * ph * pw <= usize::MAX,
                target == window_sequence(views as int, ph as int, pw as int),
                target.len() == total,
                order@ == target.take(i as int),
            decreases total - i,
        {
            proof {
                lemma_windowed(i as int, views as int, ph as int, pw as int);
                let window = i as int / 4;
                let per = (ph as int / 2) * (pw as int / 2);
                let local = window % per;
                lemma_block_token(
                    window / per,
                    local / (pw as int / 2),
                    local % (pw as int / 2),
                    i as int % 4,
                    views as int,
                    ph as int,
                    pw as int,
                );
                assert(0 <= views * ph) by (nonlinear_arith);
                assert(views * ph <= views * ph * pw) by (nonlinear_arith)
                    requires
                        pw >= 1,
                        views * ph >= 0,
                ;
                lemma_row_place(
                    views as int,
                    ph as int,
                    window / per,
                    2 * (local / (pw as int / 2)) + (i as int % 4) / 2,
                );
                assert(0 <= (window / per) * ph) by (nonlinear_arith)
                    requires
                        0 <= window / per,
                ;
            }
            let slot: usize = i % 4;
            let window: usize = i / 4;
            let view: usize = window / per_view;
            let local: usize = window % per_view;
            let wi: usize = local / half_w;
            let wj: usize = local % half_w;
            let line: usize = view * ph + (2 * wi + slot / 2);
            assert(0 <= line * pw) by (nonlinear_arith);
            let token: usize = line * pw + (2 * wj + slot % 2);
            assert(token == windowed(i as int, ph as int, pw as int));
            order.push(token);
            assert(order@ =~= target.take(i + 1));
            i = i + 1;
        }
        assert(target.take(total as int) =~= target);
        order
    }
}

/// The place of a token in the window order.
pub open spec fn window_place(token: int, ph: int, pw: int) -> int {
    let row = token / pw;
    let x = token % pw;
    let y = row % ph;
    ((row / ph) * ((ph / 2) * (pw / 2)) + (y / 2) * (pw / 2) + x / 2) * 4 + (y % 2) * 2 + x % 2
}

/// The window order of an even grid visits every token exactly once: each token is found at its
/// place, and each place holds the token it belongs to.
pub proof fn window_order_visits_every_token_once(
    views: int,
    ph: int,
    pw: int,
    token: int,
    place: int,
)
    requires
        0 < ph,
        0 < pw,
        0 <= views,
        ph % 2 == 0,
        pw % 2 == 0,
    ensures
        views * ((ph / 2) * (pw / 2)) * 4 == views * ph * pw,
        0 <= token < views * ph * pw ==> 0 <= window_place(token, ph, pw) < views * ph * pw
            && windowed(window_place(token, ph, pw), ph, pw) == token,
        0 <= place < views * ph * pw ==> 0 <= windowed(place, ph, pw) < views * ph * pw
            && window_place(windowed(place, ph, pw), ph, pw) == place,
{
    let hh = ph / 2;
    let hw = pw / 2;
    let per_view = hh * hw;
    assert(per_view * 4 == ph * pw) by (nonlinear_arith)
        requires
            hh * 2 == ph,
            hw * 2 == pw,
            per_view == hh * hw,
    ;
    assert(views * per_view * 4 == views * ph * pw) by (nonlinear_arith)
        requires
            per_view * 4 == ph * pw,
    ;
    assert(per_view > 0) by (nonlinear_arith)
        requires
            hh > 0,
            hw > 0,
            per_view == hh * hw,
    ;
    assert(views * ph >= 0) by (nonlinear_arith)
        requires
            views >= 0,
            ph >= 0,
    ;
    if 0 <= token < views * ph * pw {
        lemma_place_row(views * ph, pw, token);
        let row = token / pw;
        let x = token % pw;
        lemma_place_row(views, ph, row);
        let view = row / ph;
        let y = row % ph;
        let wi = y / 2;
        let wj = x / 2;
        let slot = (y % 2) * 2 + x % 2;
        lemma_row_place(hh, hw, wi, wj);
        let local = wi * hw + wj;
        lemma_row_place(views, per_view, view, local);
        let window = view * per_view + local;
        lemma_row_place(views * per_view, 4, window, slot);
        let p = window * 4 + slot;
        assert(p == window_place(token, ph, pw));
        assert(slot / 2 == y % 2 && slot % 2 == x % 2);
        assert(block_token(view, wi, wj, slot, ph, pw) == row * pw + x);
    }
    if 0 <= place < views * ph * pw {
        lemma_windowed(place, views, ph, pw);
        let slot = place % 4;
        let window = place / 4;
        let view = window / per_view;
        let local = window % per_view;
        let wi = local / hw;
        let wj = local % hw;
        lemma_block_token(view, wi, wj, slot, views, ph, pw);
        lemma_place_row(views * per_view, 4, place);
        lemma_place_row(views, per_view, window);
        lemma_place_row(hh, hw, local);
        let y = 2 * wi + slot / 2;
        let x = 2 * wj + slot % 2;
        assert(y / 2 == wi && y % 2 == slot / 2);
        assert(x / 2 == wj && x % 2 == slot % 2);
        assert((slot / 2) * 2 + slot % 2 == slot);
        assert(view * per_view + wi * hw + wj == window);
    }
}

/// A later view repeats the pattern of the first, shifted by the tokens of the views before it: no
/// block holds tokens of two views.
pub proof fn window_order_keeps_views_apart(ph: int, pw: int, view: int, place: int)
    requires
        0 <= ph,
        0 <= pw,
        0 <= view,
        0 <= place < ((ph / 2) * (pw / 2)) * 4,
    ensures
        windowed(view * (((ph / 2) * (pw / 2)) * 4) + place, ph, pw) == view * (ph * pw)
            + windowed(place, ph, pw),
{
    let per_view = (ph / 2) * (pw / 2);
    assert(1 * per_view * 4 == per_view * 4);
    lemma_windowed(place, 1, ph, pw);
    let window = place / 4;
    let slot = place % 4;
    lemma_place_row(per_view, 4, place);
    lemma_place_row(1, per_view, window);
    assert(window / per_view == 0 && window % per_view == window);
    let shifted = view * (per_view * 4) + place;
    assert(shifted == (view * per_view + window) * 4 + slot) by (nonlinear_arith)
        requires
            shifted == view * (per_view * 4) + place,
            place == window * 4 + slot,
    ;
    assert(0 <= view * per_view) by (nonlinear_arith)
        requires
            0 <= view,
            0 <= per_view,
    ;
    lemma_row_place(view * per_view + window + 1, 4, view * per_view + window, slot);
    lemma_row_place(view + 1, per_view, view, window);
    let wi = window / (pw / 2);
    let wj = window % (pw / 2);
    assert(block_token(view, wi, wj, slot, ph, pw) == view * (ph * pw) + block_token(
        0,
        wi,
        wj,
        slot,
        ph,
        pw,
    )) by (nonlinear_arith)
        requires
            block_token(view, wi, wj, slot, ph, pw) == (view * ph + 2 * wi + slot / 2) * pw + 2 * wj
                + slot % 2,
            block_token(0, wi, wj, slot, ph, pw) == (0 * ph + 2 * wi + slot / 2) * pw + 2 * wj + slot
                % 2,
    ;
}

/// Two by two blocks of tokens as rows.
pub struct MergeGroups<'a, T> {
    pub tokens: &'a Vec<T>,
    pub views: usize,
    pub ph: usize,
    pub pw: usize,
    pub dim: usize,
}

impl<'a, T: Copy + Sync> RowSource<T> for MergeGroups<'a, T> {
    open spec fn ready(&self, index: int, width: int) -> bool {
        &&& self.tokens@.len() == self.views * self.ph * self.pw * self.dim
        &&& self.views * self.ph * self.pw <= usize::MAX
        &&& self.dim > 0
        &&& width == 4 * self.dim
        &&& 0 <= index < self.views * ((self.ph as int / 2) * (self.pw as int / 2))
    }

    open spec fn row(&self, index: int) -> Seq<T> {
        Seq::new(
            (4 * self.dim) as nat,
            |c: int|
                self.tokens@[windowed(
                    index * 4 + c / self.dim as int,
                    self.ph as int,
                    self.pw as int,
                ) * self.dim + c % self.dim as int],
        )
    }

    fn fill(&self, index: usize, row: &mut [T]) {
        let dim: usize = self.dim;
        let half_w: usize = self.pw / 2;
        let half_h: usize = self.ph / 2;
        let ghost per = (self.ph as int / 2) * (self.pw as int / 2);
        let ghost n = 4 * dim;
        proof {
            lemma_row_place(self.views * per, 4, index as int, 0);
            lemma_windowed(
                index * 4,
                self.views as int,
                self.ph as int,
                self.pw as int,
            );
            assert(half_h * half_w >= 0) by (nonlinear_arith);
            assert(self.views >= 1) by (nonlinear_arith)
                requires
                    0 <= index,
                    index < self.views * per,
                    per >= 0,
                    self.views >= 0,
            ;
            assert(half_h * half_w <= self.views * self.ph * self.pw) by (nonlinear_arith)
                requires
                    half_h <= self.ph,
                    half_w <= self.pw,
                    self.views >= 1,
                    half_h >= 0,
                    half_w >= 0,
            ;
            assert(self.tokens@.len() == self.tokens.len());
        }
        let per_view: usize = half_h * half_w;
        let view: usize = index / per_view;
        let local: usize = index % per_view;
        let wi: usize = local / half_w;
        let wj: usize = local % half_w;
        let mut c: usize = 0;
        while c < row.len()
            invariant
                self.tokens@.len() == self.views * self.ph * self.pw * self.dim,
                self.tokens@.len() <= usize::MAX,
                self.views * self.ph * self.pw <= usize::MAX,
                dim == self.dim,
                dim > 0,
                n == 4 * dim,
                per == (self.ph as int / 2) * (self.pw as int / 2),
                per == per_view,
                half_w == self.pw as int / 2,
                0 <= index < self.views * per,
                view == index as int / per,
                local == index as int % per,
                wi == local as int / half_w as int,
                wj == local as int % half_w as int,
                view < self.views,
                wi < self.ph as int / 2,
                wj < self.pw as int / 2,
                row@.len() == n,
                c <= n,
                forall|j: int| 0 <= j < c ==> #[trigger] row@[j] == self.row(index as int)[j],
            decreases n - c,
        {
            proof {
                lemma_place_row(4, dim as int, c as int);
            }
            let slot: usize = c / dim;
            let column: usize = c % dim;
            let ghost token = block_token(
                view as int,
                wi as int,
                wj as int,
                slot as int,
                self.ph as int,
                self.pw as int,
            );
            proof {
                lemma_row_place(self.views * per, 4, index as int, slot as int);
                assert(windowed(index * 4 + slot, self.ph as int, self.pw as int) == token);
                lemma_block_token(
                    view as int,
                    wi as int,
                    wj as int,
                    slot as int,
                    self.views as int,
                    self.ph as int,
                    self.pw as int,
                );
                lemma_row_place(
                    self.views * self.ph * self.pw,
                    dim as int,
                    token,
                    column as int,
                );
                lemma_row_place(
                    self.views as int,
                    self.ph as int,
                    view as int,
                    2 * wi + slot as int / 2,
                );
                assert(self.views * self.ph <= self.views * self.ph * self.pw)
                    by (nonlinear_arith)
                    requires
                        self.pw >= 1,
                        self.views >= 0,
                        self.ph >= 0,
                ;
                assert(0 <= view * self.ph) by (nonlinear_arith);
            }
            let line: usize = view * self.ph + (2 * wi + slot / 2);
            assert(0 <= line * self.pw) by (nonlinear_arith);
            let source: usize = line * self.pw + (2 * wj + slot % 2);
            assert(source == token);
            assert(0 <= source * dim) by (nonlinear_arith);
            row[c] = self.tokens[source * dim + column];
            c = c + 1;
        }
        assert(row@ =~= self.row(index as int));
    }
}

/// Gathers each two by two block of tokens into one row: the rows, and the extents of the merged
/// grid.
pub fn gather_merge_groups<T: Copy + Send + Sync>(
    tokens: &Vec<T>,
    views: usize,
    ph: usize,
    pw: usize,
    dim: usize,
    filler: T,
) -> (result: (Vec<T>, usize, usize))
    requires
        tokens@.len() == views * ph * pw * dim,
        views * ph * pw <= usize::MAX,
        dim > 0,
        4 * dim <= usize::MAX,
    ensures
        result.1 == ph as int / 2,
        result.2 == pw as int / 2,
        ({
            let rows = views * ((ph as int / 2) * (pw as int / 2));
            let merged = result.0@;
            &&& merged.len() == rows * (4 * dim)
            &&& forall|i: int, c: int|
                #![trigger merged[i * (4 * dim) + c]]
                0 <= i < rows && 0 <= c < 4 * dim ==> merged[i * (4 * dim) + c] == tokens@[windowed(
                    i * 4 + c / dim as int,
                    ph as int,
                    pw as int,
                ) * dim + c % dim as int]
        }),
{
    let out_h: usize = ph / 2;
    let out_w: usize = pw / 2;
    let width: usize = 4 * dim;
    let ghost per = (ph as int / 2) * (pw as int / 2);
    let source = MergeGroups { tokens, views, ph, pw, dim };
    proof {
        assert(tokens@.len() == tokens.len());
        assert(per * 4 <= ph * pw) by (nonlinear_arith)
            requires
                per == out_h * out_w,
                out_h * 2 <= ph,
                out_w * 2 <= pw,
                out_h >= 0,
                out_w >= 0,
        ;
        assert(per >= 0) by (nonlinear_arith)
            requires
                per == out_h * out_w,
        ;
        assert(views * per * 4 <= views * ph * pw) by (nonlinear_arith)
            requires
                per * 4 <= ph * pw,
                views >= 0,
        ;
        assert(views * per >= 0) by (nonlinear_arith)
            requires
                views >= 0,
                per >= 0,
        ;
        assert(views * per * (4 * dim) <= views * ph * pw * dim) by (nonlinear_arith)
            requires
                views * per * 4 <= views * ph * pw,
                dim >= 0,
        ;
        assert(views * per * (4 * dim) >= 0) by (nonlinear_arith)
            requires
                views * per >= 0,
                dim >= 0,
        ;
        assert(views == 0 || per <= views * per) by (nonlinear_arith)
            requires
                per >= 0,
                views >= 0,
        ;
    }
    if views == 0 {
        assert(views * per * (4 * dim) == 0) by (nonlinear_arith)
            requires
                views == 0,
        ;
        assert(views * per == 0) by (nonlinear_arith)
            requires
                views == 0,
        ;
        return (Vec::new(), out_h, out_w);
    }
    let rows: usize = views * (out_h * out_w);
    let len: usize = rows * width;
    let mut merged: Vec<T> = crate::values::filled(len, filler);
    proof {
        lemma_fundamental_div_mod_converse(len as int, width as int, rows as int, 0);
    }
    par_fill_rows(&mut merged, width, &source);
    proof {
        assert forall|i: int, c: int|
            #![trigger merged@[i * (4 * dim) + c]]
            0 <= i < rows && 0 <= c < 4 * dim implies merged@[i * (4 * dim) + c] == tokens@[windowed(
            i * 4 + c / dim as int,
            ph as int,
            pw as int,
        ) * dim + c % dim as int] by {
            assert(source.row(i)[c] == tokens@[windowed(
                i * 4 + c / dim as int,
                ph as int,
                pw as int,
            ) * dim + c % dim as int]);
        }
    }
    (merged, out_h, out_w)
}

/// The row of the square position table that a patch takes: the nearest bucket in each direction.
pub fn position_bucket(grid: usize, py: usize, px: usize, ph: usize, pw: usize) -> (row: usize)
    requires
        py < ph,
        px < pw,
        grid * ph <= usize::MAX,
        grid * pw <= usize::MAX,
        grid * grid <= usize::MAX,
        grid > 0,
    ensures
        row == ((grid * py) / ph as int) * grid + (grid * px) / pw as int,
        row < grid * grid,
{
    proof {
        assert(0 <= grid * py && grid * py < grid * ph) by (nonlinear_arith)
            requires
                py < ph,
                grid > 0,
        ;
        assert(0 <= grid * px && grid * px < grid * pw) by (nonlinear_arith)
            requires
                px < pw,
                grid > 0,
        ;
        lemma_place_row(grid as int, ph as int, grid * py);
        lemma_place_row(grid as int, pw as int, grid * px);
        lemma_row_place(
            grid as int,
            grid as int,
            (grid * py) / ph as int,
            (grid * px) / pw as int,
        );
    }
    let by: usize = grid * py / ph;
    let bx: usize = grid * px / pw;
    assert(0 <= by * grid) by (nonlinear_arith);
    by * grid + bx
}

/// The tokens that are planned for a view are those that two merges of its patches leave.
pub proof fn planned_views_match_merging(
    patch_size: usize,
    width: usize,
    height: usize,
    path: Seq<char>,
)
    requires
        patch_size > 0,
        grid_outcome(patch_size, width, height, path) is Ok,
    ensures
        ({
            let (across, down) = grid_outcome(patch_size, width, height, path)->Ok_0;
            (down as int / 2 / 2) * (across as int / 2 / 2) == (across as int / 4) * (down as int
                / 4)
        }),
{
    let (across, down) = grid_outcome(patch_size, width, height, path)->Ok_0;
    assert(down as int / 2 / 2 == down as int / 4);
    assert(across as int / 2 / 2 == across as int / 4);
    assert((down as int / 4) * (across as int / 4) == (across as int / 4) * (down as int / 4))
        by (nonlinear_arith);
}

/// The window order goes view by view, in each view over the two by two blocks row by row, and in
/// each block over its upper and then its lower row.
pub proof fn window_order_goes_block_by_block(
    views: int,
    ph: int,
    pw: int,
    view: int,
    block: (int, int),
    lower: int,
    right: int,
)
    requires
        0 <= ph,
        0 <= pw,
        0 <= view < views,
        0 <= block.0 < ph / 2,
        0 <= block.1 < pw / 2,
        0 <= lower < 2,
        0 <= right < 2,
    ensures
        ({
            let place = ((view * (ph / 2) + block.0) * (pw / 2) + block.1) * 4 + 2 * lower + right;
            &&& 0 <= place < views * ((ph / 2) * (pw / 2)) * 4
            &&& windowed(place, ph, pw) == (view * ph + 2 * block.0 + lower) * pw + 2 * block.1
                + right
        }),
{
    let hh = ph / 2;
    let hw = pw / 2;
    let slot = 2 * lower + right;
    let per_view = hh * hw;
    let local = block.0 * hw + block.1;
    lemma_row_place(hh, hw, block.0, block.1);
    lemma_row_place(views, per_view, view, local);
    let window = view * per_view + local;
    assert((view * hh + block.0) * hw == view * (hh * hw) + block.0 * hw) by (nonlinear_arith);
    lemma_row_place(views * per_view, 4, window, slot);
    assert(slot / 2 == lower && slot % 2 == right);
}

/// Metadata is accepted exactly where its dimensions are positive, heads divide their whole, patches
/// are merged by four, the merger comes before the last layer, colours have three values, and
/// kernels can be counted. The encoder has these dimensions.
pub proof fn minicpm_metadata_gives_the_dimensions(meta: VisionMetadata, target_dim: usize)
    ensures
        minicpm_metadata(meta, target_dim) is Ok <==> {
            let dim = meta.embedding_length as usize;
            let patch = meta.patch_size as usize;
            &&& meta.image_mean matches Some(mean) ==> mean@.len() >= 3
            &&& meta.image_std matches Some(std_dev) ==> std_dev@.len() >= 3
            &&& dim > 0
            &&& (meta.head_count as usize) > 0
            &&& (meta.feed_forward_length as usize) > 0
            &&& (meta.block_count as usize) > 0
            &&& patch > 0
            &&& meta.scale_factor >= 0
            &&& (meta.scale_factor as usize) == 4
            &&& dim as int % (meta.head_count as usize) as int == 0
            &&& dim * 4 <= usize::MAX
            &&& meta.wa_layer_indexes matches Some(layers) && layers@.len() > 0 && 0 <= layers@[0]
                <= usize::MAX && layers@[0] < (meta.block_count as usize) - 1
            &&& patch * patch * 3 * dim <= usize::MAX
        },
        minicpm_metadata(meta, target_dim) matches Ok(config) ==> {
            &&& config.dim == meta.embedding_length as usize
            &&& config.head_count == meta.head_count as usize
            &&& config.head_dim * config.head_count == config.dim
            &&& config.ff_dim == meta.feed_forward_length as usize
            &&& config.n_layers == meta.block_count as usize
            &&& config.eps == meta.layer_norm_epsilon
            &&& config.patch_size == meta.patch_size as usize
            &&& config.image_size == meta.image_size as usize
            &&& config.merged_dim == 4 * config.dim
            &&& config.insert_layer_id == meta.wa_layer_indexes->Some_0@[0]
            &&& meta.image_mean matches Some(mean) ==> config.image_mean == (
                mean@[0],
                mean@[1],
                mean@[2],
            )
            &&& meta.image_std matches Some(std_dev) ==> config.image_std == (
                std_dev@[0],
                std_dev@[1],
                std_dev@[2],
            )
            &&& config.use_gelu == meta.use_gelu
            &&& config.target_dim == target_dim
        },
{
    let dim = (meta.embedding_length as usize) as int;
    let heads = (meta.head_count as usize) as int;
    if heads > 0 {
        vstd::arithmetic::div_mod::lemma_fundamental_div_mod(dim, heads);
        vstd::arithmetic::div_mod::lemma_div_pos_is_pos(dim, heads);
        vstd::arithmetic::div_mod::lemma_div_is_ordered_by_denominator(dim, 1, heads);
        assert((dim / heads) * heads == heads * (dim / heads)) by (nonlinear_arith);
    }
}

/// Where the tensors of the merger and the projector stand behind those loaded before them.
pub open spec fn holds_merger_and_projector(
    encoder: MiniCpmView,
    gguf: TensorDirectory,
    at: int,
) -> bool {
    let all = encoder.tensors;
    let dim = encoder.config.dim;
    let merged = encoder.config.merged_dim;
    let inner = encoder.config.ds_ff_dim;
    let hidden = encoder.config.hidden_dim;
    let target = encoder.config.target_dim;
    let vector = Rule::Floats(Some(dim));
    let square = Rule::Projection { in_dim: dim, out_dim: dim };
    let wide = Rule::Floats(Some(merged));
    &&& all.len() == at + 22
    &&& loaded_at(all, gguf, at + 0, "v.vit_merger.ln1.weight"@, vector)
    &&& loaded_at(all, gguf, at + 1, "v.vit_merger.ln1.bias"@, vector)
    &&& loaded_at(all, gguf, at + 2, "v.vit_merger.attn_q.weight"@, square)
    &&& loaded_at(all, gguf, at + 3, "v.vit_merger.attn_q.bias"@, vector)
    &&& loaded_at(all, gguf, at + 4, "v.vit_merger.attn_k.weight"@, square)
    &&& loaded_at(all, gguf, at + 5, "v.vit_merger.attn_k.bias"@, vector)
    &&& loaded_at(all, gguf, at + 6, "v.vit_merger.attn_v.weight"@, square)
    &&& loaded_at(all, gguf, at + 7, "v.vit_merger.attn_v.bias"@, vector)
    &&& loaded_at(all, gguf, at + 8, "v.vit_merger.attn_out.weight"@, square)
    &&& loaded_at(all, gguf, at + 9, "v.vit_merger.attn_out.bias"@, vector)
    &&& loaded_at(all, gguf, at + 10, "v.vit_merger.ds_ln.weight"@, wide)
    &&& loaded_at(all, gguf, at + 11, "v.vit_merger.ds_ln.bias"@, wide)
    &&& loaded_at(all, gguf, at + 12, "v.vit_merger.ds_ffn_up.weight"@, Rule::Projection { in_dim: merged, out_dim: inner })
    &&& loaded_at(all, gguf, at + 13, "v.vit_merger.ds_ffn_up.bias"@, Rule::Floats(Some(inner)))
    &&& loaded_at(all, gguf, at + 14, "v.vit_merger.ds_ffn_down.weight"@, Rule::Projection { in_dim: inner, out_dim: dim })
    &&& loaded_at(all, gguf, at + 15, "v.vit_merger.ds_ffn_down.bias"@, vector)
    &&& loaded_at(all, gguf, at + 16, "mm.input_norm.weight"@, wide)
    &&& loaded_at(all, gguf, at + 17, "mm.input_norm.bias"@, wide)
    &&& loaded_at(all, gguf, at + 18, "mm.up.weight"@, Rule::Projection { in_dim: merged, out_dim: hidden })
    &&& loaded_at(all, gguf, at + 19, "mm.up.bias"@, Rule::Floats(Some(hidden)))
    &&& loaded_at(all, gguf, at + 20, "mm.down.weight"@, Rule::Projection { in_dim: hidden, out_dim: target })
    &&& loaded_at(all, gguf, at + 21, "mm.down.bias"@, Rule::Floats(Some(target)))
}

proof fn lemma_minicpm_rest(gguf: TensorDirectory, config: MiniCpmConfig, so_far: Seq<Loaded>)
    ensures
        minicpm_rest(gguf, config, so_far) matches Ok(encoder) ==> {
            &&& encoder.config == MiniCpmConfig {
                ds_ff_dim: encoder.config.ds_ff_dim,
                hidden_dim: encoder.config.hidden_dim,
                ..config
            }
            &&& holds_merger_and_projector(encoder, gguf, so_far.len() as int)
            &&& forall|i: int| 0 <= i < so_far.len() ==> #[trigger] encoder.tensors[i] == so_far[i]
            &&& forall|place: int, name: Seq<char>, rule: Rule|
                #[trigger] loaded_at(so_far, gguf, place, name, rule) ==> loaded_at(
                    encoder.tensors,
                    gguf,
                    place,
                    name,
                    rule,
                )
        },
{
    match output_width(gguf, "v.vit_merger.ds_ffn_up.weight"@) {
        Ok(ds_ff_dim) => {
            let merging = MiniCpmConfig { ds_ff_dim, ..config };
            let merger = minicpm_merger(merging);
            further_tensors_follow(gguf, so_far, merger);
            match with_tensors(gguf.tensors@, gguf.mapped_len, so_far, merger) {
                Ok(merged) => match output_width(gguf, "mm.up.weight"@) {
                    Ok(hidden_dim) => {
                        let full = MiniCpmConfig { hidden_dim, ..merging };
                        let projector = minicpm_projector(full);
                        further_tensors_follow(gguf, merged, projector);
                        assert(merger.len() == 16 && projector.len() == 6);
                        assert(merger[0].0 == "v.vit_merger.ln1.weight"@);
                        assert(merger[1].0 == "v.vit_merger.ln1.bias"@);
                        assert(merger[2].0 == "v.vit_merger.attn_q.weight"@);
                        assert(merger[3].0 == "v.vit_merger.attn_q.bias"@);
                        assert(merger[4].0 == "v.vit_merger.attn_k.weight"@);
                        assert(merger[5].0 == "v.vit_merger.attn_k.bias"@);
                        assert(merger[6].0 == "v.vit_merger.attn_v.weight"@);
                        assert(merger[7].0 == "v.vit_merger.attn_v.bias"@);
                        assert(merger[8].0 == "v.vit_merger.attn_out.weight"@);
                        assert(merger[9].0 == "v.vit_merger.attn_out.bias"@);
                        assert(merger[10].0 == "v.vit_merger.ds_ln.weight"@);
                        assert(merger[11].0 == "v.vit_merger.ds_ln.bias"@);
                        assert(merger[12].0 == "v.vit_merger.ds_ffn_up.weight"@);
                        assert(merger[13].0 == "v.vit_merger.ds_ffn_up.bias"@);
                        assert(merger[14].0 == "v.vit_merger.ds_ffn_down.weight"@);
                        assert(merger[15].0 == "v.vit_merger.ds_ffn_down.bias"@);
                        assert(projector[0].0 == "mm.input_norm.weight"@);
                        assert(projector[1].0 == "mm.input_norm.bias"@);
                        assert(projector[2].0 == "mm.up.weight"@);
                        assert(projector[3].0 == "mm.up.bias"@);
                        assert(projector[4].0 == "mm.down.weight"@);
                        assert(projector[5].0 == "mm.down.bias"@);
                    },
                    Err(_) => {},
                },
                Err(_) => {},
            }
        },
        Err(_) => {},
    }
}

/// An encoder holds the tensors of its sidecar in order: the patch kernels and their bias, a square
/// position table, the last norm, sixteen tensors for each layer, the merger and the projector.
pub proof fn minicpm_encoders_hold_their_tensors_in_order(
    meta: VisionMetadata,
    gguf: TensorDirectory,
    target_dim: usize,
    encoder: MiniCpmView,
)
    requires
        minicpm_loads(meta, gguf, target_dim, Ok(encoder)),
    ensures
        ({
            let config = encoder.config;
            let all = encoder.tensors;
            let vector = Rule::Floats(Some(config.dim));
            let kernels = (config.patch_size * config.patch_size * 3 * config.dim) as usize;
            let layers = vision_layers_asked(
                MatrixCheck::Extents,
                config.n_layers as nat,
                config.dim,
                config.ff_dim,
            );
            &&& minicpm_metadata(meta, target_dim) matches Ok(given) && config == MiniCpmConfig {
                pos_grid: config.pos_grid,
                ds_ff_dim: config.ds_ff_dim,
                hidden_dim: config.hidden_dim,
                ..given
            }
            &&& loaded_at(all, gguf, 0, "v.patch_embd.weight"@, Rule::Floats(Some(kernels)))
            &&& loaded_at(all, gguf, 1, "v.patch_embd.bias"@, vector)
            &&& loaded_at(all, gguf, 2, "v.position_embd.weight"@, Rule::Floats(None))
            &&& config.pos_grid > 0
            &&& values_of(all[2]) == config.pos_grid * config.pos_grid * config.dim
            &&& loaded_at(all, gguf, 3, "v.post_ln.weight"@, vector)
            &&& loaded_at(all, gguf, 4, "v.post_ln.bias"@, vector)
            &&& forall|i: int|
                0 <= i < layers.len() ==> loaded_at(
                    all,
                    gguf,
                    5 + i,
                    (#[trigger] layers[i]).0,
                    layers[i].1,
                )
            &&& holds_merger_and_projector(encoder, gguf, 5int + layers.len())
        }),
{
    let config = minicpm_metadata(meta, target_dim)->Ok_0;
    let list = minicpm_first(config);
    further_tensors_follow(gguf, Seq::empty(), list);
    let first = with_tensors(gguf.tensors@, gguf.mapped_len, Seq::empty(), list)->Ok_0;
    assert(list[0].0 == "v.patch_embd.weight"@);
    assert(list[1].0 == "v.patch_embd.bias"@);
    assert(list[2].0 == "v.position_embd.weight"@);
    let values = values_of(first[2]) as int;
    let dim = config.dim as int;
    let side = choose|side: usize|
        side > 0 && side * side == values / dim && Ok::<MiniCpmView, Seq<char>>(encoder)
            == #[trigger] minicpm_square(gguf, config, first, side);
    vstd::arithmetic::div_mod::lemma_fundamental_div_mod(values, dim);
    assert(dim * (side * side) == side * side * dim) by (nonlinear_arith);
    let tower = minicpm_tower(config);
    let layers = vision_layers_asked(
        MatrixCheck::Extents,
        config.n_layers as nat,
        config.dim,
        config.ff_dim,
    );
    further_tensors_follow(gguf, first, tower);
    let so_far = with_tensors(gguf.tensors@, gguf.mapped_len, first, tower)->Ok_0;
    assert(tower.len() == 2 + layers.len());
    assert(tower[0].0 == "v.post_ln.weight"@);
    assert(tower[1].0 == "v.post_ln.bias"@);
    assert(forall|i: int| 0 <= i < layers.len() ==> tower[2 + i] == #[trigger] layers[i]);
    lemma_minicpm_rest(gguf, MiniCpmConfig { pos_grid: side, ..config }, so_far);
    assert(encoder.tensors[2] == so_far[2] && so_far[2] == first[2]);
}

} // verus!
