//! What vision encoders share: metadata, the tensors of their layers, and image patches.
use crate::parallel::{par_fill_rows, RowSource};
use crate::tables::{lemma_place_row, lemma_row_place};
use crate::tensors::{ask, asked, Requirement, Rule};
use crate::text::{decimal, Text};
use vstd::arithmetic::div_mod::lemma_fundamental_div_mod_converse;
use vstd::prelude::*;

verus! {

/// The values of the keys of a sidecar that describe its vision encoder, where they are there.
#[derive(Debug)]
pub struct VisionKeys {
    /// `clip.vision.embedding_length`
    pub embedding_length: Option<i64>,
    /// `clip.vision.attention.head_count`
    pub head_count: Option<i64>,
    /// `clip.vision.feed_forward_length`
    pub feed_forward_length: Option<i64>,
    /// `clip.vision.block_count`
    pub block_count: Option<i64>,
    /// The bit pattern of `clip.vision.attention.layer_norm_epsilon`
    pub layer_norm_epsilon: Option<u32>,
    /// `clip.vision.patch_size`
    pub patch_size: Option<i64>,
    /// `clip.vision.image_size`
    pub image_size: Option<i64>,
    /// `clip.vision.projector.scale_factor`
    pub scale_factor: Option<i64>,
    /// `clip.use_gelu`
    pub use_gelu: Option<bool>,
    /// The bit patterns of `clip.vision.image_mean`
    pub image_mean: Option<Vec<u32>>,
    /// The bit patterns of `clip.vision.image_std`
    pub image_std: Option<Vec<u32>>,
    /// `clip.vision.wa_layer_indexes`
    pub wa_layer_indexes: Option<Vec<i64>>,
}

/// The bit pattern of the layer norm epsilon where none is given: one millionth.
pub const DEFAULT_EPSILON_BITS: u32 = 0x3586_37bd;

/// The patch size where none is given.
pub const DEFAULT_PATCH_SIZE: i64 = 14;

/// The scale factor of the projector where none is given.
pub const DEFAULT_SCALE_FACTOR: i64 = 4;

/// A value, or its default where it is not there.
pub open spec fn or_default<T>(value: Option<T>, default: T) -> T {
    match value {
        Some(v) => v,
        None => default,
    }
}

/// The metadata that keys give, with the default image size of an encoder.
pub open spec fn keys_give(keys: VisionKeys, image_size: i64, meta: VisionMetadata) -> bool {
    &&& meta.embedding_length == or_default(keys.embedding_length, 0)
    &&& meta.head_count == or_default(keys.head_count, 0)
    &&& meta.feed_forward_length == or_default(keys.feed_forward_length, 0)
    &&& meta.block_count == or_default(keys.block_count, 0)
    &&& meta.layer_norm_epsilon == or_default(keys.layer_norm_epsilon, DEFAULT_EPSILON_BITS)
    &&& meta.patch_size == or_default(keys.patch_size, DEFAULT_PATCH_SIZE)
    &&& meta.image_size == or_default(keys.image_size, image_size)
    &&& meta.scale_factor == or_default(keys.scale_factor, DEFAULT_SCALE_FACTOR)
    &&& meta.use_gelu == or_default(keys.use_gelu, true)
    &&& meta.image_mean == keys.image_mean
    &&& meta.image_std == keys.image_std
    &&& meta.wa_layer_indexes == keys.wa_layer_indexes
}

/// Fills in the defaults of the keys that are not there.
pub fn with_defaults(keys: VisionKeys, image_size: i64) -> (meta: VisionMetadata)
    ensures
        keys_give(keys, image_size, meta),
{
    VisionMetadata {
        embedding_length: keys.embedding_length.unwrap_or(0),
        head_count: keys.head_count.unwrap_or(0),
        feed_forward_length: keys.feed_forward_length.unwrap_or(0),
        block_count: keys.block_count.unwrap_or(0),
        layer_norm_epsilon: keys.layer_norm_epsilon.unwrap_or(DEFAULT_EPSILON_BITS),
        patch_size: keys.patch_size.unwrap_or(DEFAULT_PATCH_SIZE),
        image_size: keys.image_size.unwrap_or(image_size),
        scale_factor: keys.scale_factor.unwrap_or(DEFAULT_SCALE_FACTOR),
        use_gelu: keys.use_gelu.unwrap_or(true),
        image_mean: keys.image_mean,
        image_std: keys.image_std,
        wa_layer_indexes: keys.wa_layer_indexes,
    }
}

/// What a sidecar's metadata says of its vision encoder. Missing numbers hold their defaults.
#[derive(Debug)]
pub struct VisionMetadata {
    pub embedding_length: i64,
    pub head_count: i64,
    pub feed_forward_length: i64,
    pub block_count: i64,
    /// The bit pattern of the layer norm epsilon.
    pub layer_norm_epsilon: u32,
    pub patch_size: i64,
    pub image_size: i64,
    pub scale_factor: i64,
    pub use_gelu: bool,
    /// The bit patterns of the mean colour.
    pub image_mean: Option<Vec<u32>>,
    /// The bit patterns of the deviation of each colour.
    pub image_std: Option<Vec<u32>>,
    pub wa_layer_indexes: Option<Vec<i64>>,
}

/// The bit pattern of one half.
pub const HALF_BITS: u32 = 0x3f00_0000;

/// A number of the metadata as a size.
pub open spec fn size_of_number(value: i64) -> usize {
    value as usize
}

/// A number of the metadata as a size.
pub fn number_as_size(value: i64) -> (size: usize)
    ensures
        size == size_of_number(value),
{
    #[verifier::truncate]
    (value as usize)
}

/// Three values of a colour: the first three where there are any, or halves.
pub open spec fn colour(values: Option<Vec<u32>>) -> Option<(u32, u32, u32)> {
    match values {
        None => Some((HALF_BITS, HALF_BITS, HALF_BITS)),
        Some(list) => if list@.len() < 3 {
            None
        } else {
            Some((list@[0], list@[1], list@[2]))
        },
    }
}

/// The text of a colour with too few values.
pub open spec fn colour_text(key: Seq<char>, values: Option<Vec<u32>>) -> Seq<char> {
    "invalid "@ + key + " metadata: expected at least 3 values, got "@ + decimal(
        match values {
            Some(list) => list@.len(),
            None => 0,
        },
    )
}

/// Three values of a colour.
pub fn parse_rgb_triplet(values: &Option<Vec<u32>>, key: &str) -> (result: Result<
    (u32, u32, u32),
    String,
>)
    ensures
        match result {
            Ok(triplet) => colour(*values) == Some(triplet),
            Err(text) => colour(*values) is None && text@ == colour_text(key@, *values),
        },
{
    match values {
        None => Ok((HALF_BITS, HALF_BITS, HALF_BITS)),
        Some(list) => {
            if list.len() < 3 {
                return Err(
                    Text::start("invalid ").text(key).text(
                        " metadata: expected at least 3 values, got ",
                    ).size(list.len()).finish(),
                );
            }
            Ok((list[0], list[1], list[2]))
        },
    }
}

/// How the matrices of an encoder are checked.
#[derive(Clone, Copy, Debug, PartialEq, Eq, Structural)]
pub enum MatrixCheck {
    /// By the number of their elements.
    Elements,
    /// By both extents.
    Extents,
}

/// The rule of a matrix from one width to another.
pub open spec fn matrix_rule(check: MatrixCheck, in_dim: usize, out_dim: usize) -> Rule {
    match check {
        MatrixCheck::Elements => Rule::Elements { rows: out_dim, cols: in_dim },
        MatrixCheck::Extents => Rule::Projection { in_dim, out_dim },
    }
}

fn rule_of_matrix(check: MatrixCheck, in_dim: usize, out_dim: usize) -> (rule: Rule)
    ensures
        rule == matrix_rule(check, in_dim, out_dim),
{
    match check {
        MatrixCheck::Elements => Rule::Elements { rows: out_dim, cols: in_dim },
        MatrixCheck::Extents => Rule::Projection { in_dim, out_dim },
    }
}

/// The name of a tensor of a layer.
pub open spec fn vision_name(layer: int, suffix: Seq<char>) -> Seq<char> {
    "v.blk."@ + decimal(layer as nat) + suffix
}

/// The tensors of a layer: two norms, four attention matrices, and the expansion and contraction
/// of the feed-forward part, each with its bias.
pub open spec fn vision_layer_asked(
    check: MatrixCheck,
    layer: int,
    dim: usize,
    ff_dim: usize,
) -> Seq<(Seq<char>, Rule)> {
    let vector = Rule::Floats(Some(dim));
    let square = matrix_rule(check, dim, dim);
    seq![
        (vision_name(layer, ".ln1.weight"@), vector),
        (vision_name(layer, ".ln1.bias"@), vector),
        (vision_name(layer, ".ln2.weight"@), vector),
        (vision_name(layer, ".ln2.bias"@), vector),
        (vision_name(layer, ".attn_q.weight"@), square),
        (vision_name(layer, ".attn_q.bias"@), vector),
        (vision_name(layer, ".attn_k.weight"@), square),
        (vision_name(layer, ".attn_k.bias"@), vector),
        (vision_name(layer, ".attn_v.weight"@), square),
        (vision_name(layer, ".attn_v.bias"@), vector),
        (vision_name(layer, ".attn_out.weight"@), square),
        (vision_name(layer, ".attn_out.bias"@), vector),
        (vision_name(layer, ".ffn_up.weight"@), matrix_rule(check, dim, ff_dim)),
        (vision_name(layer, ".ffn_up.bias"@), Rule::Floats(Some(ff_dim))),
        (vision_name(layer, ".ffn_down.weight"@), matrix_rule(check, ff_dim, dim)),
        (vision_name(layer, ".ffn_down.bias"@), vector),
    ]
}

/// The tensors of the first `k` layers.
pub open spec fn vision_layers_asked(
    check: MatrixCheck,
    k: nat,
    dim: usize,
    ff_dim: usize,
) -> Seq<(Seq<char>, Rule)>
    decreases k,
{
    if k == 0 {
        Seq::empty()
    } else {
        vision_layers_asked(check, (k - 1) as nat, dim, ff_dim) + vision_layer_asked(
            check,
            k - 1,
            dim,
            ff_dim,
        )
    }
}

fn ask_vision(list: &mut Vec<Requirement>, layer: usize, suffix: &str, rule: Rule)
    ensures
        asked(final(list)@) == asked(old(list)@).push((vision_name(layer as int, suffix@), rule)),
{
    let name: String = Text::start("v.blk.").size(layer).text(suffix).finish();
    ask(list, name.as_str(), rule);
}

fn ask_vision_layer(
    list: &mut Vec<Requirement>,
    check: MatrixCheck,
    layer: usize,
    dim: usize,
    ff_dim: usize,
)
    ensures
        asked(final(list)@) == asked(old(list)@) + vision_layer_asked(
            check,
            layer as int,
            dim,
            ff_dim,
        ),
{
    let vector = Rule::Floats(Some(dim));
    let square = rule_of_matrix(check, dim, dim);
    ask_vision(list, layer, ".ln1.weight", vector);
    ask_vision(list, layer, ".ln1.bias", vector);
    ask_vision(list, layer, ".ln2.weight", vector);
    ask_vision(list, layer, ".ln2.bias", vector);
    ask_vision(list, layer, ".attn_q.weight", square);
    ask_vision(list, layer, ".attn_q.bias", vector);
    ask_vision(list, layer, ".attn_k.weight", square);
    ask_vision(list, layer, ".attn_k.bias", vector);
    ask_vision(list, layer, ".attn_v.weight", square);
    ask_vision(list, layer, ".attn_v.bias", vector);
    ask_vision(list, layer, ".attn_out.weight", square);
    ask_vision(list, layer, ".attn_out.bias", vector);
    ask_vision(list, layer, ".ffn_up.weight", rule_of_matrix(check, dim, ff_dim));
    ask_vision(list, layer, ".ffn_up.bias", Rule::Floats(Some(ff_dim)));
    ask_vision(list, layer, ".ffn_down.weight", rule_of_matrix(check, ff_dim, dim));
    ask_vision(list, layer, ".ffn_down.bias", vector);
    assert(asked(list@) =~= asked(old(list)@) + vision_layer_asked(
        check,
        layer as int,
        dim,
        ff_dim,
    ));
}

/// Asks for the tensors of all layers.
pub fn ask_vision_layers(
    list: &mut Vec<Requirement>,
    check: MatrixCheck,
    layers: usize,
    dim: usize,
    ff_dim: usize,
)
    ensures
        asked(final(list)@) == asked(old(list)@) + vision_layers_asked(
            check,
            layers as nat,
            dim,
            ff_dim,
        ),
{
    let mut layer: usize = 0;
    assert(asked(list@) =~= asked(old(list)@) + vision_layers_asked(check, 0, dim, ff_dim));
    while layer < layers
        invariant
            layer <= layers,
            asked(list@) == asked(old(list)@) + vision_layers_asked(
                check,
                layer as nat,
                dim,
                ff_dim,
            ),
        decreases layers - layer,
    {
        ask_vision_layer(list, check, layer, dim, ff_dim);
        assert(asked(list@) =~= asked(old(list)@) + vision_layers_asked(
            check,
            (layer + 1) as nat,
            dim,
            ff_dim,
        ));
        layer = layer + 1;
    }
}

/// The number of values of the patch kernels.
pub open spec fn kernel_values(patch_size: int, dim: int) -> int {
    patch_size * patch_size * 3 * dim
}

/// The number of values of the patch kernels, where it stays a machine number.
pub fn patch_kernel_elements(patch_size: usize, dim: usize) -> (count: Option<usize>)
    requires
        dim > 0,
    ensures
        match count {
            Some(n) => n == kernel_values(patch_size as int, dim as int) && patch_size * patch_size
                * 3 <= usize::MAX,
            None => kernel_values(patch_size as int, dim as int) > usize::MAX,
        },
{
    let ghost area = patch_size * patch_size;
    proof {
        assert(area >= 0) by (nonlinear_arith)
            requires
                area == patch_size * patch_size,
        ;
        assert(area * 3 <= area * 3 * dim) by (nonlinear_arith)
            requires
                dim >= 1,
                area >= 0,
        ;
    }
    let plane: usize = match patch_size.checked_mul(patch_size) {
        Some(n) => n,
        None => return None,
    };
    let patch: usize = match plane.checked_mul(3) {
        Some(n) => n,
        None => return None,
    };
    patch.checked_mul(dim)
}

/// The patches of an image of three planes.
pub struct ImagePatches<'a, T> {
    pub data: &'a Vec<T>,
    pub width: usize,
    pub height: usize,
    pub patch_size: usize,
}

impl<'a, T> ImagePatches<'a, T> {
    /// The image is cut into whole patches.
    pub open spec fn wf(&self) -> bool {
        &&& self.patch_size > 0
        &&& self.data@.len() == 3 * (self.width * self.height)
        &&& self.width as int % self.patch_size as int == 0
        &&& self.height as int % self.patch_size as int == 0
    }

    /// The number of patches of a row.
    pub open spec fn across(&self) -> int {
        self.width as int / self.patch_size as int
    }

    /// The number of rows of patches.
    pub open spec fn down(&self) -> int {
        self.height as int / self.patch_size as int
    }

    /// The place in the image of a place of a patch: colour by colour, row by row.
    pub open spec fn source(&self, index: int, place: int) -> int {
        let side = self.patch_size as int;
        let area = side * side;
        let y = (index / self.across()) * side + (place % area) / side;
        let x = (index % self.across()) * side + (place % area) % side;
        ((place / area) * self.height + y) * self.width + x
    }
}

impl<'a, T: Copy + Sync> RowSource<T> for ImagePatches<'a, T> {
    open spec fn ready(&self, index: int, width: int) -> bool {
        &&& self.wf()
        &&& width == 3 * (self.patch_size * self.patch_size)
        &&& 0 <= index < self.down() * self.across()
    }

    open spec fn row(&self, index: int) -> Seq<T> {
        Seq::new(
            (3 * (self.patch_size * self.patch_size)) as nat,
            |place: int| self.data@[self.source(index, place)],
        )
    }

    fn fill(&self, index: usize, row: &mut [T]) {
        let side: usize = self.patch_size;
        let ghost n = 3 * (side * side);
        proof {
            assert(side * side >= side) by (nonlinear_arith)
                requires
                    side >= 1,
            ;
            assert(row@.len() == row.len());
            assert(self.data@.len() == self.data.len());
            lemma_place_row(self.down(), self.across(), index as int);
            lemma_whole_patches(self.width as int, side as int);
            lemma_whole_patches(self.height as int, side as int);
        }
        let area: usize = side * side;
        let across: usize = self.width / side;
        let py: usize = index / across;
        let px: usize = index % across;
        let mut place: usize = 0;
        while place < row.len()
            invariant
                self.wf(),
                self.data@.len() <= usize::MAX,
                side == self.patch_size,
                side > 0,
                area == side * side,
                area > 0,
                across == self.across(),
                py == index as int / self.across(),
                px == index as int % self.across(),
                0 <= py < self.down(),
                0 <= px < self.across(),
                self.across() * side == self.width,
                self.down() * side == self.height,
                n == 3 * (side * side),
                row@.len() == n,
                place <= n,
                forall|j: int|
                    0 <= j < place ==> #[trigger] row@[j] == self.data@[self.source(
                        index as int,
                        j,
                    )],
            decreases n - place,
        {
            proof {
                lemma_place_row(3, area as int, place as int);
                lemma_place_row(side as int, side as int, place as int % area as int);
            }
            let channel: usize = place / area;
            let within: usize = place % area;
            let ky: usize = within / side;
            let kx: usize = within % side;
            proof {
                lemma_row_place(self.down(), side as int, py as int, ky as int);
                lemma_row_place(self.across(), side as int, px as int, kx as int);
                let y = py * side + ky;
                let x = px * side + kx;
                lemma_row_place(3, self.height as int, channel as int, y);
                lemma_row_place(
                    3 * self.height,
                    self.width as int,
                    channel * self.height + y,
                    x,
                );
                assert(3 * self.height * self.width == 3 * (self.width * self.height))
                    by (nonlinear_arith);
                assert(3 * self.height <= 3 * self.height * self.width) by (nonlinear_arith)
                    requires
                        self.width >= 1,
                        self.height >= 0,
                ;
                assert(0 <= py * side && 0 <= px * side && 0 <= channel * self.height)
                    by (nonlinear_arith);
                assert(0 <= (channel * self.height + y) * self.width) by (nonlinear_arith)
                    requires
                        0 <= channel * self.height + y,
                ;
            }
            let y: usize = py * side + ky;
            let x: usize = px * side + kx;
            let line: usize = channel * self.height + y;
            let source: usize = line * self.width + x;
            assert(source == self.source(index as int, place as int));
            row[place] = self.data[source];
            place = place + 1;
        }
        assert(row@ =~= self.row(index as int));
    }
}

proof fn lemma_whole_patches(extent: int, side: int)
    requires
        side > 0,
        extent >= 0,
        extent % side == 0,
    ensures
        (extent / side) * side == extent,
{
    vstd::arithmetic::div_mod::lemma_fundamental_div_mod(extent, side);
    let q = extent / side;
    assert(q * side == side * q) by (nonlinear_arith);
}

/// The patches of an image, one row for each patch. None where their number of values is not a
/// machine number.
pub fn image_patches<T: Copy + Send + Sync>(
    data: &Vec<T>,
    width: usize,
    height: usize,
    patch_size: usize,
    filler: T,
) -> (patches: Option<Vec<T>>)
    requires
        (ImagePatches { data, width, height, patch_size }).wf(),
        patch_size * patch_size * 3 <= usize::MAX,
    ensures
        match patches {
            Some(values) => {
                let source = ImagePatches { data, width, height, patch_size };
                let size = 3 * (patch_size * patch_size);
                &&& values@.len() == source.down() * source.across() * size
                &&& forall|i: int, p: int|
                    0 <= i < source.down() * source.across() && 0 <= p < size ==> values@[i * size
                        + p] == data@[#[trigger] source.source(i, p)]
            },
            None => {
                let source = ImagePatches { data, width, height, patch_size };
                source.down() * source.across() > usize::MAX || source.down() * source.across() * (
                3 * (patch_size * patch_size)) > usize::MAX
            },
        },
{
    let source = ImagePatches { data, width, height, patch_size };
    proof {
        assert(patch_size * patch_size >= patch_size) by (nonlinear_arith)
            requires
                patch_size >= 1,
        ;
    }
    let size: usize = patch_size * patch_size * 3;
    let rows: usize = match (height / patch_size).checked_mul(width / patch_size) {
        Some(rows) => rows,
        None => return None,
    };
    let len: usize = match rows.checked_mul(size) {
        Some(len) => len,
        None => return None,
    };
    let mut values: Vec<T> = crate::values::filled(len, filler);
    proof {
        lemma_fundamental_div_mod_converse(len as int, size as int, rows as int, 0);
    }
    par_fill_rows(&mut values, size, &source);
    proof {
        assert forall|i: int, p: int| 0 <= i < rows && 0 <= p < size implies values@[i * size + p]
            == data@[#[trigger] source.source(i, p)] by {
            assert(source.row(i)[p] == data@[source.source(i, p)]);
        }
    }
    Some(values)
}

/// A table read by column: row `c` holds column `c`.
pub struct Columns<'a, T> {
    pub data: &'a Vec<T>,
    pub rows: usize,
    pub cols: usize,
}

impl<'a, T: Copy + Sync> RowSource<T> for Columns<'a, T> {
    open spec fn ready(&self, index: int, width: int) -> bool {
        &&& self.data@.len() == self.rows * self.cols
        &&& width == self.rows
        &&& 0 <= index < self.cols
    }

    open spec fn row(&self, index: int) -> Seq<T> {
        Seq::new(self.rows as nat, |r: int| self.data@[r * self.cols + index])
    }

    fn fill(&self, index: usize, row: &mut [T]) {
        let mut r: usize = 0;
        let ghost n = self.rows;
        assert(self.data@.len() == self.data.len());
        while r < row.len()
            invariant
                self.data@.len() == self.rows * self.cols,
                self.data@.len() <= usize::MAX,
                index < self.cols,
                n == self.rows,
                row@.len() == n,
                r <= n,
                forall|j: int| 0 <= j < r ==> #[trigger] row@[j] == self.data@[j * self.cols + index],
            decreases n - r,
        {
            proof {
                lemma_row_place(self.rows as int, self.cols as int, r as int, index as int);
                assert(0 <= r * self.cols) by (nonlinear_arith);
            }
            row[r] = self.data[r * self.cols + index];
            r = r + 1;
        }
        assert(row@ =~= self.row(index as int));
    }
}

/// The table whose rows are the columns of a table.
pub fn transposed<T: Copy + Send + Sync>(data: &Vec<T>, rows: usize, cols: usize, filler: T)
    -> (out: Vec<T>)
    requires
        data@.len() == rows * cols,
    ensures
        out@.len() == data@.len(),
        forall|r: int, c: int|
            0 <= r < rows && 0 <= c < cols ==> out@[c * rows + r] == #[trigger] data@[r * cols
                + c],
{
    let len: usize = data.len();
    let mut out: Vec<T> = crate::values::filled(len, filler);
    if rows == 0 {
        return out;
    }
    let source = Columns { data, rows, cols };
    proof {
        assert(len == cols * rows) by (nonlinear_arith)
            requires
                len == rows * cols,
        ;
        lemma_fundamental_div_mod_converse(len as int, rows as int, cols as int, 0);
    }
    par_fill_rows(&mut out, rows, &source);
    proof {
        assert forall|r: int, c: int| 0 <= r < rows && 0 <= c < cols implies out@[c * rows + r]
            == #[trigger] data@[r * cols + c] by {
            assert(source.row(c)[r] == data@[r * cols + c]);
        }
    }
    out
}

/// Transposing twice gives the table back.
pub proof fn transposing_twice_is_the_identity<T>(
    data: Seq<T>,
    once: Seq<T>,
    twice: Seq<T>,
    rows: int,
    cols: int,
)
    requires
        rows >= 0,
        cols >= 0,
        data.len() == rows * cols,
        once.len() == data.len(),
        twice.len() == data.len(),
        forall|r: int, c: int|
            0 <= r < rows && 0 <= c < cols ==> once[c * rows + r] == #[trigger] data[r * cols + c],
        forall|r: int, c: int|
            0 <= r < cols && 0 <= c < rows ==> twice[c * cols + r] == #[trigger] once[r * rows
                + c],
    ensures
        twice == data,
{
    assert forall|i: int| 0 <= i < data.len() implies twice[i] == data[i] by {
        lemma_place_row(rows, cols, i);
        let r = i / cols;
        let c = i % cols;
        assert(data[r * cols + c] == data[i]);
        assert(once[c * rows + r] == data[r * cols + c]);
        assert(twice[r * cols + c] == once[c * rows + r]);
    }
    assert(twice =~= data);
}

/// Every value of the image is in a patch: the value of a colour at a row and column lies in the
/// patch of its square, at the place of its colour, row and column within the square.
pub proof fn images_are_cut_without_loss<'a, T>(
    source: ImagePatches<'a, T>,
    colour: int,
    y: int,
    x: int,
)
    requires
        source.wf(),
        0 <= colour < 3,
        0 <= y < source.height,
        0 <= x < source.width,
    ensures
        ({
            let side = source.patch_size as int;
            let patch = (y / side) * (source.width as int / side) + x / side;
            let place = (colour * side + y % side) * side + x % side;
            &&& 0 <= patch < (source.height as int / side) * (source.width as int / side)
            &&& 0 <= place < 3 * (side * side)
            &&& source.source(patch, place) == (colour * source.height + y) * source.width + x
        }),
{
    let side = source.patch_size as int;
    let across = source.width as int / side;
    let down = source.height as int / side;
    lemma_whole_patches(source.width as int, side);
    lemma_whole_patches(source.height as int, side);
    lemma_place_row(down, side, y);
    lemma_place_row(across, side, x);
    lemma_row_place(down, across, y / side, x / side);
    let area = side * side;
    let within = (y % side) * side + x % side;
    lemma_row_place(side, side, y % side, x % side);
    lemma_row_place(3, area, colour, within);
    assert((colour * side + y % side) * side == colour * (side * side) + (y % side) * side)
        by (nonlinear_arith);
}

proof fn lemma_vision_layers(check: MatrixCheck, k: nat, dim: usize, ff_dim: usize, l: int, j: int)
    ensures
        vision_layers_asked(check, k, dim, ff_dim).len() == 16 * k,
        0 <= l < k && 0 <= j < 16 ==> vision_layers_asked(check, k, dim, ff_dim)[16 * l + j]
            == vision_layer_asked(check, l, dim, ff_dim)[j],
    decreases k,
{
    if k > 0 {
        lemma_vision_layers(check, (k - 1) as nat, dim, ff_dim, l, j);
    }
}

/// Every layer of an image encoder is asked for with its own sixteen tensors, named by its number:
/// two norms, the four square matrices of the attention, and the two matrices of the feed-forward
/// network, each with its bias.
pub proof fn every_vision_layer_is_asked_for(
    check: MatrixCheck,
    layers: nat,
    dim: usize,
    ff_dim: usize,
    l: int,
)
    requires
        0 <= l < layers,
    ensures
        ({
            let asked = vision_layers_asked(check, layers, dim, ff_dim);
            let layer = "v.blk."@ + decimal(l as nat);
            let vector = Rule::Floats(Some(dim));
            let square = match check {
                MatrixCheck::Elements => Rule::Elements { rows: dim, cols: dim },
                MatrixCheck::Extents => Rule::Projection { in_dim: dim, out_dim: dim },
            };
            let up = match check {
                MatrixCheck::Elements => Rule::Elements { rows: ff_dim, cols: dim },
                MatrixCheck::Extents => Rule::Projection { in_dim: dim, out_dim: ff_dim },
            };
            let down = match check {
                MatrixCheck::Elements => Rule::Elements { rows: dim, cols: ff_dim },
                MatrixCheck::Extents => Rule::Projection { in_dim: ff_dim, out_dim: dim },
            };
            let at = 16 * l;
            &&& asked.len() == 16 * layers
            &&& asked[at] == (layer + ".ln1.weight"@, vector)
            &&& asked[at + 1] == (layer + ".ln1.bias"@, vector)
            &&& asked[at + 2] == (layer + ".ln2.weight"@, vector)
            &&& asked[at + 3] == (layer + ".ln2.bias"@, vector)
            &&& asked[at + 4] == (layer + ".attn_q.weight"@, square)
            &&& asked[at + 5] == (layer + ".attn_q.bias"@, vector)
            &&& asked[at + 6] == (layer + ".attn_k.weight"@, square)
            &&& asked[at + 7] == (layer + ".attn_k.bias"@, vector)
            &&& asked[at + 8] == (layer + ".attn_v.weight"@, square)
            &&& asked[at + 9] == (layer + ".attn_v.bias"@, vector)
            &&& asked[at + 10] == (layer + ".attn_out.weight"@, square)
            &&& asked[at + 11] == (layer + ".attn_out.bias"@, vector)
            &&& asked[at + 12] == (layer + ".ffn_up.weight"@, up)
            &&& asked[at + 13] == (layer + ".ffn_up.bias"@, Rule::Floats(Some(ff_dim)))
            &&& asked[at + 14] == (layer + ".ffn_down.weight"@, down)
            &&& asked[at + 15] == (layer + ".ffn_down.bias"@, vector)
        }),
{
    assert forall|j: int| 0 <= j < 16 implies #[trigger] vision_layers_asked(
        check,
        layers,
        dim,
        ff_dim,
    )[16 * l + j] == vision_layer_asked(check, l, dim, ff_dim)[j] by {
        lemma_vision_layers(check, layers, dim, ff_dim, l, j);
    }
    lemma_vision_layers(check, layers, dim, ff_dim, l, 0);
    assert(vision_layers_asked(check, layers, dim, ff_dim)[16 * l + 0] == vision_layer_asked(
        check,
        l,
        dim,
        ff_dim,
    )[0]);
}

} // verus!
