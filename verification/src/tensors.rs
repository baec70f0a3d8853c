//! Tensors that an encoder requires of a model file, and what is wrong with those that do not fit.
use crate::gguf::{
    element_product, find_by_name, find_gguf_tensor, tensor_fits, tensor_n_elements,
    Gguftensor, QuantizedTensor, TensorDirectory,
};
use crate::text::{decimal, signed_decimal, Text};
use vstd::prelude::*;

verus! {

/// The dimensions of a tensor of up to four dimensions; those beyond the rank are one.
#[derive(Clone, Copy, Debug, PartialEq, Eq, Structural)]
pub struct Shape {
    pub rank: usize,
    pub d0: usize,
    pub d1: usize,
    pub d2: usize,
    pub d3: usize,
}

impl Shape {
    /// A vector.
    pub open spec fn one_spec(d0: usize) -> Shape {
        Shape { rank: 1, d0, d1: 1, d2: 1, d3: 1 }
    }

    /// A matrix.
    pub open spec fn two_spec(d0: usize, d1: usize) -> Shape {
        Shape { rank: 2, d0, d1, d2: 1, d3: 1 }
    }

    /// Three dimensions.
    pub open spec fn three_spec(d0: usize, d1: usize, d2: usize) -> Shape {
        Shape { rank: 3, d0, d1, d2, d3: 1 }
    }

    /// Four dimensions.
    pub open spec fn four_spec(d0: usize, d1: usize, d2: usize, d3: usize) -> Shape {
        Shape { rank: 4, d0, d1, d2, d3 }
    }

    /// A vector.
    #[verifier::when_used_as_spec(one_spec)]
    pub fn one(d0: usize) -> (shape: Shape)
        ensures
            shape == Shape::one_spec(d0),
    {
        Shape { rank: 1, d0, d1: 1, d2: 1, d3: 1 }
    }

    /// A matrix.
    #[verifier::when_used_as_spec(two_spec)]
    pub fn two(d0: usize, d1: usize) -> (shape: Shape)
        ensures
            shape == Shape::two_spec(d0, d1),
    {
        Shape { rank: 2, d0, d1, d2: 1, d3: 1 }
    }

    /// Three dimensions.
    #[verifier::when_used_as_spec(three_spec)]
    pub fn three(d0: usize, d1: usize, d2: usize) -> (shape: Shape)
        ensures
            shape == Shape::three_spec(d0, d1, d2),
    {
        Shape { rank: 3, d0, d1, d2, d3: 1 }
    }

    /// Four dimensions.
    #[verifier::when_used_as_spec(four_spec)]
    pub fn four(d0: usize, d1: usize, d2: usize, d3: usize) -> (shape: Shape)
        ensures
            shape == Shape::four_spec(d0, d1, d2, d3),
    {
        Shape { rank: 4, d0, d1, d2, d3 }
    }

    /// The dimensions in brackets.
    pub open spec fn text(self) -> Seq<char> {
        let a = "["@ + decimal(self.d0 as nat);
        let b = if self.rank >= 2 {
            a + ", "@ + decimal(self.d1 as nat)
        } else {
            a
        };
        let c = if self.rank >= 3 {
            b + ", "@ + decimal(self.d2 as nat)
        } else {
            b
        };
        let d = if self.rank >= 4 {
            c + ", "@ + decimal(self.d3 as nat)
        } else {
            c
        };
        d + "]"@
    }

    /// The dimensions in brackets.
    pub fn message(self) -> (message: String)
        ensures
            message@ == self.text(),
    {
        let mut text = Text::start("[").size(self.d0);
        if self.rank >= 2 {
            text = text.text(", ").size(self.d1);
        }
        if self.rank >= 3 {
            text = text.text(", ").size(self.d2);
        }
        if self.rank >= 4 {
            text = text.text(", ").size(self.d3);
        }
        text.text("]").finish()
    }

    /// The number of elements.
    pub open spec fn elements(self) -> int {
        self.d0 * self.d1 * self.d2 * self.d3
    }

    /// Whether the number of elements stays a machine number from dimension to dimension.
    pub open spec fn countable(self) -> bool {
        self.d0 * self.d1 <= usize::MAX && self.d0 * self.d1 * self.d2 <= usize::MAX
            && self.elements() <= usize::MAX
    }

    /// The number of elements, where it stays a machine number from dimension to dimension.
    pub fn count(self) -> (count: Option<usize>)
        ensures
            match count {
                Some(n) => self.countable() && n == self.elements(),
                None => !self.countable(),
            },
    {
        let plane: usize = match self.d0.checked_mul(self.d1) {
            Some(plane) => plane,
            None => return None,
        };
        let space: usize = match plane.checked_mul(self.d2) {
            Some(space) => space,
            None => return None,
        };
        space.checked_mul(self.d3)
    }
}

/// What a tensor must be.
#[derive(Clone, Copy, Debug, PartialEq, Eq, Structural)]
pub enum Rule {
    /// Values of any shape, and of the given number where there is one.
    Floats(Option<usize>),
    /// A matrix with the given number of elements.
    Elements { rows: usize, cols: usize },
    /// A matrix whose first two dimensions are the given ones.
    Projection { in_dim: usize, out_dim: usize },
    /// A tensor of exactly the given shape.
    Exact(Shape),
    /// A tensor of exactly the given shape, or none.
    Optional(Shape),
    /// A matrix of any shape.
    AnyMatrix,
    /// A matrix of the given first dimension and at least the given second one.
    AtLeast { dim: usize, minimum: usize },
    /// Square kernels of the given side over one channel, for at least one output channel.
    FirstKernel { side: usize },
}

/// A tensor that fits its rule.
#[derive(Clone, Copy, Debug, PartialEq, Eq, Structural)]
pub enum Loaded {
    Floats { data_offset: usize, byte_len: usize, elements: usize, ttype: i32 },
    Matrix(QuantizedTensor),
    Weight { data_offset: usize, ttype: i32, shape: Shape },
    Absent,
}

/// What is wrong with a tensor.
#[derive(Clone, Copy, Debug, PartialEq, Eq, Structural)]
pub enum TensorProblem {
    NotFound,
    ElementCount { got: usize, wanted: usize },
    UnsupportedFloats { ttype: i32 },
    UnevenFloats { elements: usize, block_size: usize },
    OffsetOverflow,
    OutOfBounds,
    ShapeOverflow,
    MatrixElements { got: usize, wanted: usize, rows: usize, cols: usize },
    NotAProjection { n_dims: u32 },
    ProjectionShape { ne0: usize, ne1: usize, in_dim: usize, out_dim: usize },
    InvalidRank { n_dims: u32 },
    DimensionTooLarge { extent: u64 },
    CountOverflow { shape: Shape },
    UnsupportedType { ttype: i32 },
    UnevenRows { first: usize, block_size: usize, ttype: i32 },
    StorageOverflow,
    RangeOverflow,
    RangeExceeds { start: usize, end: usize, mapped_len: usize },
    ShapeMismatch { shape: Shape, wanted_shape: Shape },
    NotAMatrix { rank: usize },
    PositionShape { shape: Shape, dim: usize, minimum: usize },
    KernelShape { shape: Shape, side: usize },
}

impl TensorProblem {
    /// The message text for the tensor of the given name.
    pub open spec fn text(self, name: Seq<char>) -> Seq<char> {
        match self {
            TensorProblem::NotFound => "tensor not found: "@ + name,
            TensorProblem::ElementCount { got, wanted } => "tensor "@ + name + " has "@ + decimal(
                got as nat,
            ) + " elements, expected "@ + decimal(wanted as nat),
            TensorProblem::UnsupportedFloats { ttype } => "unsupported tensor type "@
                + signed_decimal(ttype as int) + " for "@ + name,
            TensorProblem::UnevenFloats { elements, block_size } => "tensor "@ + name
                + " element count "@ + decimal(elements as nat)
                + " not divisible by block size "@ + decimal(block_size as nat),
            TensorProblem::OffsetOverflow => "tensor "@ + name + " offset overflow"@,
            TensorProblem::OutOfBounds => "tensor "@ + name + " exceeds mapped bounds"@,
            TensorProblem::ShapeOverflow => "shape overflow while loading "@ + name,
            TensorProblem::MatrixElements { got, wanted, rows, cols } => "tensor "@ + name
                + " shape mismatch: got "@ + decimal(got as nat) + " elements, expected "@
                + decimal(wanted as nat) + " (rows="@ + decimal(rows as nat) + ", cols="@
                + decimal(cols as nat) + ")"@,
            TensorProblem::NotAProjection { n_dims } => "tensor "@ + name + " has "@ + decimal(
                n_dims as nat,
            ) + " dimension(s), expected a 2-D projection"@,
            TensorProblem::ProjectionShape { ne0, ne1, in_dim, out_dim } => "tensor "@ + name
                + " has ne=["@ + decimal(ne0 as nat) + ", "@ + decimal(ne1 as nat)
                + "] but this backend reads it as input="@ + decimal(in_dim as nat) + " output="@
                + decimal(out_dim as nat),
            TensorProblem::InvalidRank { n_dims } => "tensor "@ + name + " has invalid rank "@
                + decimal(n_dims as nat),
            TensorProblem::DimensionTooLarge { extent } => "tensor "@ + name + " dimension "@
                + decimal(extent as nat) + " does not fit usize"@,
            TensorProblem::CountOverflow { shape } => "tensor "@ + name
                + " element count overflows usize for shape "@ + shape.text(),
            TensorProblem::UnsupportedType { ttype } => "tensor "@ + name
                + " uses unsupported GGML type "@ + signed_decimal(ttype as int),
            TensorProblem::UnevenRows { first, block_size, ttype } => "tensor "@ + name
                + " first dimension "@ + decimal(first as nat)
                + " is not divisible by GGML block size "@ + decimal(block_size as nat)
                + " for type "@ + signed_decimal(ttype as int),
            TensorProblem::StorageOverflow => "tensor "@ + name + " storage size overflows usize"@,
            TensorProblem::RangeOverflow => "tensor "@ + name + " data range overflows usize"@,
            TensorProblem::RangeExceeds { start, end, mapped_len } => "tensor "@ + name
                + " data range ["@ + decimal(start as nat) + ".."@ + decimal(end as nat)
                + ") exceeds mapped sidecar length "@ + decimal(mapped_len as nat),
            TensorProblem::ShapeMismatch { shape, wanted_shape } => "qwen3_asr tensor "@ + name
                + " shape mismatch: got "@ + shape.text() + ", expected "@ + wanted_shape.text()
                + " (GGML dimension order)"@,
            TensorProblem::NotAMatrix { rank } => "qwen3_asr tensor "@ + name + " has rank "@
                + decimal(rank as nat) + ", expected a matrix"@,
            TensorProblem::PositionShape { shape, dim, minimum } => "qwen3_asr tensor "@ + name
                + " shape mismatch: got "@ + shape.text() + ", expected ["@ + decimal(dim as nat)
                + ", positions>="@ + decimal(minimum as nat) + "]"@,
            TensorProblem::KernelShape { shape, side } => "qwen3_asr tensor "@ + name
                + " shape mismatch: got "@ + shape.text() + ", expected ["@ + decimal(side as nat)
                + ", "@ + decimal(side as nat) + ", 1, channels>0] (GGML dimension order)"@,
        }
    }

    /// The message text for the tensor of the given name.
    pub fn message(self, name: &str) -> (message: String)
        ensures
            message@ == self.text(name@),
    {
        match self {
            TensorProblem::NotFound => Text::start("tensor not found: ").text(name).finish(),
            TensorProblem::ElementCount { got, wanted } => Text::start("tensor ").text(name).text(
                " has ",
            ).size(got).text(" elements, expected ").size(wanted).finish(),
            TensorProblem::UnsupportedFloats { ttype } => Text::start(
                "unsupported tensor type ",
            ).signed(ttype as i64).text(" for ").text(name).finish(),
            TensorProblem::UnevenFloats { elements, block_size } => Text::start("tensor ").text(
                name,
            ).text(" element count ").size(elements).text(" not divisible by block size ").size(
                block_size,
            ).finish(),
            TensorProblem::OffsetOverflow => Text::start("tensor ").text(name).text(
                " offset overflow",
            ).finish(),
            TensorProblem::OutOfBounds => Text::start("tensor ").text(name).text(
                " exceeds mapped bounds",
            ).finish(),
            TensorProblem::ShapeOverflow => Text::start("shape overflow while loading ").text(
                name,
            ).finish(),
            TensorProblem::MatrixElements { got, wanted, rows, cols } => Text::start(
                "tensor ",
            ).text(name).text(" shape mismatch: got ").size(got).text(" elements, expected ").size(
                wanted,
            ).text(" (rows=").size(rows).text(", cols=").size(cols).text(")").finish(),
            TensorProblem::NotAProjection { n_dims } => Text::start("tensor ").text(name).text(
                " has ",
            ).number(n_dims as u64).text(" dimension(s), expected a 2-D projection").finish(),
            TensorProblem::ProjectionShape { ne0, ne1, in_dim, out_dim } => Text::start(
                "tensor ",
            ).text(name).text(" has ne=[").size(ne0).text(", ").size(ne1).text(
                "] but this backend reads it as input=",
            ).size(in_dim).text(" output=").size(out_dim).finish(),
            TensorProblem::InvalidRank { n_dims } => Text::start("tensor ").text(name).text(
                " has invalid rank ",
            ).number(n_dims as u64).finish(),
            TensorProblem::DimensionTooLarge { extent } => Text::start("tensor ").text(name).text(
                " dimension ",
            ).number(extent).text(" does not fit usize").finish(),
            TensorProblem::CountOverflow { shape } => Text::start("tensor ").text(name).text(
                " element count overflows usize for shape ",
            ).text(shape.message().as_str()).finish(),
            TensorProblem::UnsupportedType { ttype } => Text::start("tensor ").text(name).text(
                " uses unsupported GGML type ",
            ).signed(ttype as i64).finish(),
            TensorProblem::UnevenRows { first, block_size, ttype } => Text::start("tensor ").text(
                name,
            ).text(" first dimension ").size(first).text(
                " is not divisible by GGML block size ",
            ).size(block_size).text(" for type ").signed(ttype as i64).finish(),
            TensorProblem::StorageOverflow => Text::start("tensor ").text(name).text(
                " storage size overflows usize",
            ).finish(),
            TensorProblem::RangeOverflow => Text::start("tensor ").text(name).text(
                " data range overflows usize",
            ).finish(),
            TensorProblem::RangeExceeds { start, end, mapped_len } => Text::start("tensor ").text(
                name,
            ).text(" data range [").size(start).text("..").size(end).text(
                ") exceeds mapped sidecar length ",
            ).size(mapped_len).finish(),
            TensorProblem::ShapeMismatch { shape, wanted_shape } => Text::start(
                "qwen3_asr tensor ",
            ).text(name).text(" shape mismatch: got ").text(shape.message().as_str()).text(
                ", expected ",
            ).text(wanted_shape.message().as_str()).text(" (GGML dimension order)").finish(),
            TensorProblem::NotAMatrix { rank } => Text::start("qwen3_asr tensor ").text(
                name,
            ).text(" has rank ").size(rank).text(", expected a matrix").finish(),
            TensorProblem::PositionShape { shape, dim, minimum } => Text::start(
                "qwen3_asr tensor ",
            ).text(name).text(" shape mismatch: got ").text(shape.message().as_str()).text(
                ", expected [",
            ).size(dim).text(", positions>=").size(minimum).text("]").finish(),
            TensorProblem::KernelShape { shape, side } => Text::start("qwen3_asr tensor ").text(
                name,
            ).text(" shape mismatch: got ").text(shape.message().as_str()).text(
                ", expected [",
            ).size(side).text(", ").size(side).text(
                ", 1, channels>0] (GGML dimension order)",
            ).finish(),
        }
    }
}

/// The dimension at a place, one beyond the rank.
pub open spec fn dimension(tensor: Gguftensor, i: int) -> int {
    if i < tensor.n_dims {
        tensor.ne@[i] as int
    } else {
        1
    }
}

/// The shape of a tensor, or what is wrong with its rank or with its first unusable dimension.
pub open spec fn shape_outcome(tensor: Gguftensor) -> Result<Shape, TensorProblem> {
    if tensor.n_dims == 0 || tensor.n_dims > 4 {
        Err(TensorProblem::InvalidRank { n_dims: tensor.n_dims })
    } else if dimension(tensor, 0) > usize::MAX {
        Err(TensorProblem::DimensionTooLarge { extent: tensor.ne@[0] })
    } else if dimension(tensor, 1) > usize::MAX {
        Err(TensorProblem::DimensionTooLarge { extent: tensor.ne@[1] })
    } else if dimension(tensor, 2) > usize::MAX {
        Err(TensorProblem::DimensionTooLarge { extent: tensor.ne@[2] })
    } else if dimension(tensor, 3) > usize::MAX {
        Err(TensorProblem::DimensionTooLarge { extent: tensor.ne@[3] })
    } else {
        Ok(
            Shape {
                rank: tensor.n_dims as usize,
                d0: dimension(tensor, 0) as usize,
                d1: dimension(tensor, 1) as usize,
                d2: dimension(tensor, 2) as usize,
                d3: dimension(tensor, 3) as usize,
            },
        )
    }
}

fn size_of_dimension(tensor: &Gguftensor, i: usize) -> (result: Result<usize, TensorProblem>)
    requires
        i < 4,
    ensures
        match result {
            Ok(d) => dimension(*tensor, i as int) == d,
            Err(error) => dimension(*tensor, i as int) > usize::MAX && error
                == (TensorProblem::DimensionTooLarge { extent: tensor.ne@[i as int] }),
        },
{
    if i >= tensor.n_dims as usize {
        return Ok(1);
    }
    let dim: u64 = tensor.ne[i];
    if dim > usize::MAX as u64 {
        return Err(TensorProblem::DimensionTooLarge { extent: dim });
    }
    Ok(dim as usize)
}

/// The shape of a tensor.
pub fn tensor_shape(tensor: &Gguftensor) -> (result: Result<Shape, TensorProblem>)
    ensures
        result == shape_outcome(*tensor),
{
    if tensor.n_dims == 0 || tensor.n_dims > 4 {
        return Err(TensorProblem::InvalidRank { n_dims: tensor.n_dims });
    }
    let d0: usize = match size_of_dimension(tensor, 0) {
        Ok(d) => d,
        Err(error) => return Err(error),
    };
    let d1: usize = match size_of_dimension(tensor, 1) {
        Ok(d) => d,
        Err(error) => return Err(error),
    };
    let d2: usize = match size_of_dimension(tensor, 2) {
        Ok(d) => d,
        Err(error) => return Err(error),
    };
    let d3: usize = match size_of_dimension(tensor, 3) {
        Ok(d) => d,
        Err(error) => return Err(error),
    };
    Ok(Shape { rank: tensor.n_dims as usize, d0, d1, d2, d3 })
}

/// What is wrong with the storage of a tensor of a known shape.
pub open spec fn shape_storage_problem(
    tensor: Gguftensor,
    shape: Shape,
    mapped_len: usize,
) -> Option<TensorProblem> {
    let bytes = shape.elements() / tensor.block_size as int * tensor.type_size;
    if !shape.countable() {
        Some(TensorProblem::CountOverflow { shape })
    } else if tensor.type_size == 0 || tensor.block_size == 0 {
        Some(TensorProblem::UnsupportedType { ttype: tensor.ttype })
    } else if shape.d0 as int % tensor.block_size as int != 0 {
        Some(
            TensorProblem::UnevenRows {
                first: shape.d0,
                block_size: tensor.block_size,
                ttype: tensor.ttype,
            },
        )
    } else if bytes > usize::MAX {
        Some(TensorProblem::StorageOverflow)
    } else if tensor.data_offset + bytes > usize::MAX {
        Some(TensorProblem::RangeOverflow)
    } else if tensor.data_offset + bytes > mapped_len {
        Some(
            TensorProblem::RangeExceeds {
                start: tensor.data_offset,
                end: (tensor.data_offset + bytes) as usize,
                mapped_len,
            },
        )
    } else {
        None
    }
}

/// What is wrong with the shape or the storage of a tensor.
pub open spec fn storage_problem(tensor: Gguftensor, mapped_len: usize) -> Option<TensorProblem> {
    match shape_outcome(tensor) {
        Err(error) => Some(error),
        Ok(shape) => shape_storage_problem(tensor, shape, mapped_len),
    }
}

fn check_shape_storage(tensor: &Gguftensor, shape: Shape, mapped_len: usize) -> (result: Result<
    (),
    TensorProblem,
>)
    ensures
        match result {
            Ok(_) => shape_storage_problem(*tensor, shape, mapped_len) is None,
            Err(error) => shape_storage_problem(*tensor, shape, mapped_len) == Some(error),
        },
{
    let n_elements: usize = match shape.count() {
        Some(n) => n,
        None => return Err(TensorProblem::CountOverflow { shape }),
    };
    let block_size: usize = tensor.block_size;
    if tensor.type_size == 0 || block_size == 0 {
        return Err(TensorProblem::UnsupportedType { ttype: tensor.ttype });
    }
    if shape.d0 % block_size != 0 {
        return Err(
            TensorProblem::UnevenRows { first: shape.d0, block_size, ttype: tensor.ttype },
        );
    }
    let byte_len: usize = match (n_elements / block_size).checked_mul(tensor.type_size) {
        Some(bytes) => bytes,
        None => return Err(TensorProblem::StorageOverflow),
    };
    let end: usize = match tensor.data_offset.checked_add(byte_len) {
        Some(end) => end,
        None => return Err(TensorProblem::RangeOverflow),
    };
    if end > mapped_len {
        return Err(
            TensorProblem::RangeExceeds { start: tensor.data_offset, end, mapped_len },
        );
    }
    Ok(())
}

/// Checks that the elements of a tensor fill whole blocks within the mapped file.
pub fn validate_tensor_storage(tensor: &Gguftensor, mapped_len: usize) -> (result: Result<
    (),
    TensorProblem,
>)
    ensures
        match result {
            Ok(_) => storage_problem(*tensor, mapped_len) is None,
            Err(error) => storage_problem(*tensor, mapped_len) == Some(error),
        },
{
    match tensor_shape(tensor) {
        Ok(shape) => check_shape_storage(tensor, shape, mapped_len),
        Err(error) => Err(error),
    }
}

/// What describing a tensor as a weight gives.
pub open spec fn weight_outcome(tensor: Gguftensor, mapped_len: usize) -> Result<
    Loaded,
    TensorProblem,
> {
    match storage_problem(tensor, mapped_len) {
        Some(error) => Err(error),
        None => Ok(
            Loaded::Weight {
                data_offset: tensor.data_offset,
                ttype: tensor.ttype,
                shape: shape_outcome(tensor)->Ok_0,
            },
        ),
    }
}

/// Describes a tensor as a weight.
pub fn tensor_weight(tensor: &Gguftensor, mapped_len: usize) -> (result: Result<
    Loaded,
    TensorProblem,
>)
    ensures
        result == weight_outcome(*tensor, mapped_len),
{
    match tensor_shape(tensor) {
        Err(error) => Err(error),
        Ok(shape) => match check_shape_storage(tensor, shape, mapped_len) {
            Err(error) => Err(error),
            Ok(_) => Ok(
                Loaded::Weight { data_offset: tensor.data_offset, ttype: tensor.ttype, shape },
            ),
        },
    }
}

/// Whether a shape is what a rule asks for, or what is wrong with it.
pub open spec fn shape_problem(rule: Rule, shape: Shape) -> Option<TensorProblem> {
    match rule {
        Rule::Exact(wanted) => if shape != wanted {
            Some(TensorProblem::ShapeMismatch { shape, wanted_shape: wanted })
        } else {
            None
        },
        Rule::Optional(wanted) => if shape != wanted {
            Some(TensorProblem::ShapeMismatch { shape, wanted_shape: wanted })
        } else {
            None
        },
        Rule::AnyMatrix => if shape.rank != 2 {
            Some(TensorProblem::NotAMatrix { rank: shape.rank })
        } else {
            None
        },
        Rule::AtLeast { dim, minimum } => if shape.rank != 2 || shape.d0 != dim || shape.d1
            < minimum {
            Some(TensorProblem::PositionShape { shape, dim, minimum })
        } else {
            None
        },
        Rule::FirstKernel { side } => if shape.rank != 4 || shape.d0 != side || shape.d1 != side
            || shape.d2 != 1 || shape.d3 == 0 {
            Some(TensorProblem::KernelShape { shape, side })
        } else {
            None
        },
        _ => None,
    }
}

fn check_shape(rule: Rule, shape: Shape) -> (problem: Option<TensorProblem>)
    ensures
        problem == shape_problem(rule, shape),
{
    match rule {
        Rule::Exact(wanted) => if shape != wanted {
            Some(TensorProblem::ShapeMismatch { shape, wanted_shape: wanted })
        } else {
            None
        },
        Rule::Optional(wanted) => if shape != wanted {
            Some(TensorProblem::ShapeMismatch { shape, wanted_shape: wanted })
        } else {
            None
        },
        Rule::AnyMatrix => if shape.rank != 2 {
            Some(TensorProblem::NotAMatrix { rank: shape.rank })
        } else {
            None
        },
        Rule::AtLeast { dim, minimum } => if shape.rank != 2 || shape.d0 != dim || shape.d1
            < minimum {
            Some(TensorProblem::PositionShape { shape, dim, minimum })
        } else {
            None
        },
        Rule::FirstKernel { side } => if shape.rank != 4 || shape.d0 != side || shape.d1 != side
            || shape.d2 != 1 || shape.d3 == 0 {
            Some(TensorProblem::KernelShape { shape, side })
        } else {
            None
        },
        _ => None,
    }
}

/// What a tensor is under a rule on its shape.
pub open spec fn shaped_outcome(tensor: Gguftensor, mapped_len: usize, rule: Rule) -> Result<
    Loaded,
    TensorProblem,
> {
    match shape_outcome(tensor) {
        Err(error) => Err(error),
        Ok(shape) => match shape_problem(rule, shape) {
            Some(error) => Err(error),
            None => weight_outcome(tensor, mapped_len),
        },
    }
}

fn load_shaped(tensor: &Gguftensor, mapped_len: usize, rule: Rule) -> (result: Result<
    Loaded,
    TensorProblem,
>)
    ensures
        result == shaped_outcome(*tensor, mapped_len, rule),
{
    match tensor_shape(tensor) {
        Err(error) => Err(error),
        Ok(shape) => match check_shape(rule, shape) {
            Some(error) => Err(error),
            None => tensor_weight(tensor, mapped_len),
        },
    }
}

/// What a tensor of values is.
pub open spec fn floats_outcome(
    tensor: Gguftensor,
    mapped_len: usize,
    wanted: Option<usize>,
) -> Result<Loaded, TensorProblem> {
    let elements = element_product(tensor.ne@, tensor.n_dims as nat);
    let bytes = elements / tensor.block_size as int * tensor.type_size;
    if wanted is Some && elements != wanted->Some_0 {
        Err(TensorProblem::ElementCount { got: elements as usize, wanted: wanted->Some_0 })
    } else if tensor.block_size == 0 || tensor.type_size == 0 {
        Err(TensorProblem::UnsupportedFloats { ttype: tensor.ttype })
    } else if elements % tensor.block_size as int != 0 {
        Err(
            TensorProblem::UnevenFloats {
                elements: elements as usize,
                block_size: tensor.block_size,
            },
        )
    } else if tensor.data_offset + bytes > usize::MAX {
        Err(TensorProblem::OffsetOverflow)
    } else if tensor.data_offset + bytes > mapped_len {
        Err(TensorProblem::OutOfBounds)
    } else {
        Ok(
            Loaded::Floats {
                data_offset: tensor.data_offset,
                byte_len: bytes as usize,
                elements: elements as usize,
                ttype: tensor.ttype,
            },
        )
    }
}

/// Whether the values of a tensor can be counted, and sized where their number is the one wanted.
pub open spec fn floats_fit(tensor: Gguftensor, wanted: Option<usize>) -> bool {
    &&& tensor.n_dims <= 4
    &&& wanted is None || element_product(tensor.ne@, tensor.n_dims as nat) == wanted->Some_0
        ==> tensor_fits(tensor)
}

/// Where the values of a tensor are.
pub fn load_tensor_float(
    tensor: &Gguftensor,
    mapped_len: usize,
    expected_elements: Option<usize>,
) -> (result: Result<Loaded, TensorProblem>)
    requires
        floats_fit(*tensor, expected_elements),
    ensures
        result == floats_outcome(*tensor, mapped_len, expected_elements),
{
    let elements: usize = tensor_n_elements(tensor);
    if let Some(wanted) = expected_elements {
        if elements != wanted {
            return Err(TensorProblem::ElementCount { got: elements, wanted });
        }
    }
    let block_size: usize = tensor.block_size;
    if block_size == 0 || tensor.type_size == 0 {
        return Err(TensorProblem::UnsupportedFloats { ttype: tensor.ttype });
    }
    if elements % block_size != 0 {
        return Err(TensorProblem::UnevenFloats { elements, block_size });
    }
    let blocks: usize = elements / block_size;
    assert(blocks * tensor.type_size >= 0) by (nonlinear_arith);
    let byte_len: usize = blocks * tensor.type_size;
    let end: usize = match tensor.data_offset.checked_add(byte_len) {
        Some(end) => end,
        None => return Err(TensorProblem::OffsetOverflow),
    };
    if end > mapped_len {
        return Err(TensorProblem::OutOfBounds);
    }
    Ok(
        Loaded::Floats {
            data_offset: tensor.data_offset,
            byte_len,
            elements,
            ttype: tensor.ttype,
        },
    )
}

/// What a matrix of a number of elements is.
pub open spec fn elements_outcome(tensor: Gguftensor, rows: usize, cols: usize) -> Result<
    Loaded,
    TensorProblem,
> {
    let elements = element_product(tensor.ne@, tensor.n_dims as nat);
    if rows * cols > usize::MAX {
        Err(TensorProblem::ShapeOverflow)
    } else if elements != rows * cols {
        Err(
            TensorProblem::MatrixElements {
                got: elements as usize,
                wanted: (rows * cols) as usize,
                rows,
                cols,
            },
        )
    } else {
        Ok(
            Loaded::Matrix(
                QuantizedTensor {
                    data_offset: tensor.data_offset,
                    ttype: tensor.ttype,
                    rows,
                    cols,
                },
            ),
        )
    }
}

/// A matrix with the given rows and columns, by its number of elements.
pub fn load_tensor_quantized(tensor: &Gguftensor, rows: usize, cols: usize) -> (result: Result<
    Loaded,
    TensorProblem,
>)
    requires
        tensor.n_dims <= 4,
    ensures
        result == elements_outcome(*tensor, rows, cols),
{
    let got: usize = tensor_n_elements(tensor);
    let wanted: usize = match rows.checked_mul(cols) {
        Some(wanted) => wanted,
        None => return Err(TensorProblem::ShapeOverflow),
    };
    if got != wanted {
        return Err(TensorProblem::MatrixElements { got, wanted, rows, cols });
    }
    Ok(
        Loaded::Matrix(
            QuantizedTensor { data_offset: tensor.data_offset, ttype: tensor.ttype, rows, cols },
        ),
    )
}

/// What a projection is: the first dimension is the width of its input, the second that of its
/// output.
pub open spec fn projection_outcome(tensor: Gguftensor, in_dim: usize, out_dim: usize) -> Result<
    Loaded,
    TensorProblem,
> {
    let ne0 = tensor.ne@[0] as usize;
    let ne1 = tensor.ne@[1] as usize;
    if tensor.n_dims < 2 {
        Err(TensorProblem::NotAProjection { n_dims: tensor.n_dims })
    } else if ne0 != in_dim || ne1 != out_dim {
        Err(TensorProblem::ProjectionShape { ne0, ne1, in_dim, out_dim })
    } else {
        Ok(
            Loaded::Matrix(
                QuantizedTensor {
                    data_offset: tensor.data_offset,
                    ttype: tensor.ttype,
                    rows: out_dim,
                    cols: in_dim,
                },
            ),
        )
    }
}

/// A projection by its intended direction. Both extents are checked: a swapped pair has the same
/// number of elements.
pub fn load_projection(tensor: &Gguftensor, in_dim: usize, out_dim: usize) -> (result: Result<
    Loaded,
    TensorProblem,
>)
    ensures
        result == projection_outcome(*tensor, in_dim, out_dim),
{
    if tensor.n_dims < 2 {
        return Err(TensorProblem::NotAProjection { n_dims: tensor.n_dims });
    }
    let ne0: usize = #[verifier::truncate]
    (tensor.ne[0] as usize);
    let ne1: usize = #[verifier::truncate]
    (tensor.ne[1] as usize);
    if ne0 != in_dim || ne1 != out_dim {
        return Err(TensorProblem::ProjectionShape { ne0, ne1, in_dim, out_dim });
    }
    Ok(
        Loaded::Matrix(
            QuantizedTensor {
                data_offset: tensor.data_offset,
                ttype: tensor.ttype,
                rows: out_dim,
                cols: in_dim,
            },
        ),
    )
}

/// What the tensor of a name is under a rule.
pub open spec fn outcome(
    tensors: Seq<Gguftensor>,
    mapped_len: usize,
    name: Seq<char>,
    rule: Rule,
) -> Result<Loaded, TensorProblem> {
    match find_by_name(tensors, name) {
        None => match rule {
            Rule::Optional(_) => Ok(Loaded::Absent),
            _ => Err(TensorProblem::NotFound),
        },
        Some(tensor) => match rule {
            Rule::Floats(wanted) => floats_outcome(tensor, mapped_len, wanted),
            Rule::Elements { rows, cols } => elements_outcome(tensor, rows, cols),
            Rule::Projection { in_dim, out_dim } => projection_outcome(tensor, in_dim, out_dim),
            _ => shaped_outcome(tensor, mapped_len, rule),
        },
    }
}

/// Whether a rule sizes tensors by counting their elements.
pub open spec fn counts_elements(rule: Rule) -> bool {
    rule is Floats || rule is Elements
}

/// Whether the tensor of a name, where there is one, can be sized as far as its rule asks.
pub open spec fn request_fits(tensors: Seq<Gguftensor>, name: Seq<char>, rule: Rule) -> bool {
    match find_by_name(tensors, name) {
        None => true,
        Some(tensor) => match rule {
            Rule::Floats(wanted) => floats_fit(tensor, wanted),
            Rule::Elements { .. } => tensor.n_dims <= 4,
            _ => true,
        },
    }
}

/// Whether all tensors that are asked for can.
pub open spec fn requests_fit(tensors: Seq<Gguftensor>, list: Seq<(Seq<char>, Rule)>) -> bool {
    forall|i: int|
        0 <= i < list.len() ==> request_fits(tensors, (#[trigger] list[i]).0, list[i].1)
}

/// Loads the tensor of a name under a rule.
pub fn load(gguf: &TensorDirectory, name: &String, rule: Rule) -> (result: Result<
    Loaded,
    TensorProblem,
>)
    requires
        request_fits(gguf.tensors@, name@, rule),
    ensures
        result == outcome(gguf.tensors@, gguf.mapped_len, name@, rule),
{
    let tensor = match find_gguf_tensor(gguf, name) {
        None => return match rule {
            Rule::Optional(_) => Ok(Loaded::Absent),
            _ => Err(TensorProblem::NotFound),
        },
        Some(tensor) => tensor,
    };
    match rule {
        Rule::Floats(wanted) => load_tensor_float(tensor, gguf.mapped_len, wanted),
        Rule::Elements { rows, cols } => load_tensor_quantized(tensor, rows, cols),
        Rule::Projection { in_dim, out_dim } => load_projection(tensor, in_dim, out_dim),
        _ => load_shaped(tensor, gguf.mapped_len, rule),
    }
}

/// A tensor that must have the given shape.
pub fn require_shape(gguf: &TensorDirectory, name: &String, expected: Shape) -> (result: Result<
    Loaded,
    TensorProblem,
>)
    ensures
        result == outcome(gguf.tensors@, gguf.mapped_len, name@, Rule::Exact(expected)),
{
    load(gguf, name, Rule::Exact(expected))
}

/// A tensor that has the given shape where it is there.
pub fn optional_shape(gguf: &TensorDirectory, name: &String, expected: Shape) -> (result: Result<
    Loaded,
    TensorProblem,
>)
    ensures
        result == outcome(gguf.tensors@, gguf.mapped_len, name@, Rule::Optional(expected)),
{
    load(gguf, name, Rule::Optional(expected))
}

/// A tensor that must be a matrix.
pub fn require_matrix(gguf: &TensorDirectory, name: &String) -> (result: Result<
    Loaded,
    TensorProblem,
>)
    ensures
        result == outcome(gguf.tensors@, gguf.mapped_len, name@, Rule::AnyMatrix),
{
    load(gguf, name, Rule::AnyMatrix)
}

/// A tensor that an encoder asks for.
#[derive(Debug)]
pub struct Requirement {
    pub name: String,
    pub rule: Rule,
}

/// The names and rules of requirements.
pub open spec fn asked(requirements: Seq<Requirement>) -> Seq<(Seq<char>, Rule)> {
    requirements.map(|i: int, r: Requirement| (r.name@, r.rule))
}

/// A tensor that does not fit, with what is wrong with it.
#[derive(Debug)]
pub struct TensorError {
    pub name: String,
    pub problem: TensorProblem,
}

impl View for TensorError {
    type V = (Seq<char>, TensorProblem);

    open spec fn view(&self) -> (Seq<char>, TensorProblem) {
        (self.name@, self.problem)
    }
}

impl TensorError {
    /// The message text of the error.
    pub fn message(&self) -> (message: String)
        ensures
            message@ == self@.1.text(self@.0),
    {
        self.problem.message(self.name.as_str())
    }
}

/// What the first `k` requirements give: the tensors in order, or the first that does not fit.
pub open spec fn outcomes(
    tensors: Seq<Gguftensor>,
    mapped_len: usize,
    requirements: Seq<(Seq<char>, Rule)>,
    k: nat,
) -> Result<Seq<Loaded>, (Seq<char>, TensorProblem)>
    decreases k,
{
    if k == 0 {
        Ok(Seq::empty())
    } else {
        match outcomes(tensors, mapped_len, requirements, (k - 1) as nat) {
            Err(error) => Err(error),
            Ok(loaded) => {
                let (name, rule) = requirements[k - 1];
                match outcome(tensors, mapped_len, name, rule) {
                    Err(problem) => Err((name, problem)),
                    Ok(tensor) => Ok(loaded.push(tensor)),
                }
            },
        }
    }
}

proof fn lemma_first_problem(
    tensors: Seq<Gguftensor>,
    mapped_len: usize,
    requirements: Seq<(Seq<char>, Rule)>,
    k: nat,
    n: nat,
)
    requires
        k <= n,
        outcomes(tensors, mapped_len, requirements, k) is Err,
    ensures
        outcomes(tensors, mapped_len, requirements, n) == outcomes(
            tensors,
            mapped_len,
            requirements,
            k,
        ),
    decreases n,
{
    if k < n {
        lemma_first_problem(tensors, mapped_len, requirements, k, (n - 1) as nat);
    }
}

/// Loads the tensors of all requirements in order.
pub fn load_all(gguf: &TensorDirectory, requirements: &Vec<Requirement>) -> (result: Result<
    Vec<Loaded>,
    TensorError,
>)
    requires
        requests_fit(gguf.tensors@, asked(requirements@)),
    ensures
        match result {
            Ok(loaded) => outcomes(
                gguf.tensors@,
                gguf.mapped_len,
                asked(requirements@),
                requirements@.len(),
            ) == Ok::<Seq<Loaded>, (Seq<char>, TensorProblem)>(loaded@),
            Err(error) => outcomes(
                gguf.tensors@,
                gguf.mapped_len,
                asked(requirements@),
                requirements@.len(),
            ) == Err::<Seq<Loaded>, (Seq<char>, TensorProblem)>(error@),
        },
{
    let mut loaded: Vec<Loaded> = Vec::new();
    let mut k: usize = 0;
    while k < requirements.len()
        invariant
            k <= requirements@.len(),
            requests_fit(gguf.tensors@, asked(requirements@)),
            outcomes(gguf.tensors@, gguf.mapped_len, asked(requirements@), k as nat) == Ok::<
                Seq<Loaded>,
                (Seq<char>, TensorProblem),
            >(loaded@),
        decreases requirements.len() - k,
    {
        let requirement = &requirements[k];
        assert(asked(requirements@)[k as int] == (requirement.name@, requirement.rule));
        match load(gguf, &requirement.name, requirement.rule) {
            Ok(tensor) => loaded.push(tensor),
            Err(problem) => {
                proof {
                    lemma_first_problem(
                        gguf.tensors@,
                        gguf.mapped_len,
                        asked(requirements@),
                        (k + 1) as nat,
                        requirements@.len(),
                    );
                }
                return Err(TensorError { name: requirement.name.clone(), problem });
            },
        }
        k = k + 1;
    }
    Ok(loaded)
}

/// Every loaded tensor is what its rule asks for, in the order of the requirements.
pub proof fn loaded_tensors_follow_their_rules(
    tensors: Seq<Gguftensor>,
    mapped_len: usize,
    requirements: Seq<(Seq<char>, Rule)>,
    k: nat,
    i: int,
)
    requires
        k <= requirements.len(),
        outcomes(tensors, mapped_len, requirements, k) is Ok,
        0 <= i < k,
    ensures
        outcomes(tensors, mapped_len, requirements, k)->Ok_0.len() == k,
        outcome(tensors, mapped_len, requirements[i].0, requirements[i].1) == Ok::<
            Loaded,
            TensorProblem,
        >(outcomes(tensors, mapped_len, requirements, k)->Ok_0[i]),
    decreases k,
{
    if k == 1 {
        assert(outcomes(tensors, mapped_len, requirements, 0) == Ok::<
            Seq<Loaded>,
            (Seq<char>, TensorProblem),
        >(Seq::empty()));
    } else {
        loaded_tensors_follow_their_rules(
            tensors,
            mapped_len,
            requirements,
            (k - 1) as nat,
            if i < k - 1 {
                i
            } else {
                0
            },
        );
    }
}

/// The tensors loaded so far and those of further requirements, or the text of the first that
/// does not fit.
pub open spec fn with_tensors(
    tensors: Seq<Gguftensor>,
    mapped_len: usize,
    so_far: Seq<Loaded>,
    more: Seq<(Seq<char>, Rule)>,
) -> Result<Seq<Loaded>, Seq<char>> {
    match outcomes(tensors, mapped_len, more, more.len()) {
        Err((name, problem)) => Err(problem.text(name)),
        Ok(loaded) => Ok(so_far + loaded),
    }
}

/// Asks for one more tensor.
pub fn ask(list: &mut Vec<Requirement>, name: &str, rule: Rule)
    ensures
        asked(final(list)@) == asked(old(list)@).push((name@, rule)),
        final(list)@.len() == old(list)@.len() + 1,
        !counts_elements(rule) && no_counts(old(list)@) ==> no_counts(final(list)@),
{
    list.push(Requirement { name: name.to_owned(), rule });
    assert(asked(list@) =~= asked(old(list)@).push((name@, rule)));
}

/// Whether no requirement counts elements.
pub open spec fn no_counts(list: Seq<Requirement>) -> bool {
    forall|i: int| 0 <= i < list.len() ==> !counts_elements((#[trigger] list[i]).rule)
}

/// Loads the tensors of further requirements behind those loaded so far.
pub fn load_more(gguf: &TensorDirectory, list: &Vec<Requirement>, loaded: &mut Vec<Loaded>)
    -> (result: Result<(), TensorError>)
    requires
        no_counts(list@) || requests_fit(gguf.tensors@, asked(list@)),
    ensures
        match result {
            Ok(_) => {
                &&& with_tensors(gguf.tensors@, gguf.mapped_len, old(loaded)@, asked(list@)) == Ok::<
                    Seq<Loaded>,
                    Seq<char>,
                >(final(loaded)@)
                &&& final(loaded)@.len() == old(loaded)@.len() + list@.len()
                &&& forall|i: int|
                    0 <= i < old(loaded)@.len() ==> #[trigger] final(loaded)@[i]
                        == old(loaded)@[i]
                &&& forall|i: int|
                    0 <= i < list@.len() ==> outcome(
                        gguf.tensors@,
                        gguf.mapped_len,
                        (#[trigger] list@[i]).name@,
                        list@[i].rule,
                    ) == Ok::<Loaded, TensorProblem>(final(loaded)@[old(loaded)@.len() + i])
            },
            Err(error) => with_tensors(
                gguf.tensors@,
                gguf.mapped_len,
                old(loaded)@,
                asked(list@),
            ) == Err::<Seq<Loaded>, Seq<char>>(error.problem.text(error.name@))
                && final(loaded)@ == old(loaded)@,
        },
{
    proof {
        if no_counts(list@) {
            assert forall|i: int| 0 <= i < list@.len() implies request_fits(
                gguf.tensors@,
                (#[trigger] asked(list@)[i]).0,
                asked(list@)[i].1,
            ) by {
                assert(!counts_elements(list@[i].rule));
            }
        }
    }
    match load_all(gguf, list) {
        Err(error) => Err(error),
        Ok(more) => {
            let ghost before = loaded@;
            proof {
                assert(more@.len() == list@.len()) by {
                    if list@.len() > 0 {
                        loaded_tensors_follow_their_rules(
                            gguf.tensors@,
                            gguf.mapped_len,
                            asked(list@),
                            list@.len(),
                            0,
                        );
                    }
                }
                assert forall|i: int| 0 <= i < list@.len() implies outcome(
                    gguf.tensors@,
                    gguf.mapped_len,
                    (#[trigger] list@[i]).name@,
                    list@[i].rule,
                ) == Ok::<Loaded, TensorProblem>(more@[i]) by {
                    loaded_tensors_follow_their_rules(
                        gguf.tensors@,
                        gguf.mapped_len,
                        asked(list@),
                        list@.len(),
                        i,
                    );
                }
            }
            crate::values::append_range(loaded, more.as_slice(), 0, more.len());
            assert(more@.subrange(0, more@.len() as int) =~= more@);
            Ok(())
        },
    }
}

/// A tensor is accepted as a weight exactly where it has one to four dimensions that can be
/// counted, whole blocks in each row, and all its bytes in the file. The weight has the place, the
/// type and the dimensions of the tensor; dimensions it does not have are one.
pub proof fn weights_lie_within_the_file(tensor: Gguftensor, mapped_len: usize)
    ensures
        weight_outcome(tensor, mapped_len) is Ok <==> {
            let d0 = tensor.ne@[0] as int;
            let d1 = if tensor.n_dims > 1 {
                tensor.ne@[1] as int
            } else {
                1
            };
            let d2 = if tensor.n_dims > 2 {
                tensor.ne@[2] as int
            } else {
                1
            };
            let d3 = if tensor.n_dims > 3 {
                tensor.ne@[3] as int
            } else {
                1
            };
            &&& 1 <= tensor.n_dims <= 4
            &&& d0 <= usize::MAX && d1 <= usize::MAX && d2 <= usize::MAX && d3 <= usize::MAX
            &&& d0 * d1 <= usize::MAX
            &&& d0 * d1 * d2 <= usize::MAX
            &&& d0 * d1 * d2 * d3 <= usize::MAX
            &&& tensor.type_size > 0
            &&& tensor.block_size > 0
            &&& d0 % tensor.block_size as int == 0
            &&& tensor.data_offset + d0 * d1 * d2 * d3 / tensor.block_size as int
                * tensor.type_size <= mapped_len
        },
        weight_outcome(tensor, mapped_len) matches Ok(loaded) ==> (loaded matches Loaded::Weight {
            data_offset,
            ttype,
            shape,
        } && {
            &&& data_offset == tensor.data_offset
            &&& ttype == tensor.ttype
            &&& shape.rank == tensor.n_dims
            &&& shape.d0 == tensor.ne@[0]
            &&& shape.d1 == if tensor.n_dims > 1 {
                tensor.ne@[1] as int
            } else {
                1
            }
            &&& shape.d2 == if tensor.n_dims > 2 {
                tensor.ne@[2] as int
            } else {
                1
            }
            &&& shape.d3 == if tensor.n_dims > 3 {
                tensor.ne@[3] as int
            } else {
                1
            }
        }),
{
    if tensor.block_size > 0 {
        let d0 = dimension(tensor, 0);
        let d1 = dimension(tensor, 1);
        let d2 = dimension(tensor, 2);
        let d3 = dimension(tensor, 3);
        let elements = d0 * d1 * d2 * d3;
        let block = tensor.block_size as int;
        assert(0 <= elements) by (nonlinear_arith)
            requires
                0 <= d0,
                0 <= d1,
                0 <= d2,
                0 <= d3,
                elements == d0 * d1 * d2 * d3,
        ;
        vstd::arithmetic::div_mod::lemma_div_pos_is_pos(elements, block);
        let blocks = elements / block;
        assert(0 <= blocks * tensor.type_size) by (nonlinear_arith)
            requires
                0 <= blocks,
        ;
    }
}

/// A rule on the shape of a tensor lets exactly the tensors through that can be weights and have
/// that shape, unchanged.
pub proof fn rules_fix_the_shape(tensor: Gguftensor, mapped_len: usize, rule: Rule)
    ensures
        shaped_outcome(tensor, mapped_len, rule) matches Ok(loaded) ==> weight_outcome(
            tensor,
            mapped_len,
        ) == Ok::<Loaded, TensorProblem>(loaded),
        weight_outcome(tensor, mapped_len) matches Ok(Loaded::Weight { shape, .. }) ==> {
            shaped_outcome(tensor, mapped_len, rule) is Ok <==> match rule {
                Rule::Exact(wanted) | Rule::Optional(wanted) => shape.rank == wanted.rank
                    && shape.d0 == wanted.d0 && shape.d1 == wanted.d1 && shape.d2 == wanted.d2
                    && shape.d3 == wanted.d3,
                Rule::AnyMatrix => shape.rank == 2,
                Rule::AtLeast { dim, minimum } => shape.rank == 2 && shape.d0 == dim
                    && minimum <= shape.d1,
                Rule::FirstKernel { side } => shape.rank == 4 && shape.d0 == side && shape.d1
                    == side && shape.d2 == 1 && shape.d3 >= 1,
                _ => true,
            }
        },
{
    match weight_outcome(tensor, mapped_len) {
        Ok(Loaded::Weight { shape, .. }) => {
            match rule {
                Rule::Exact(wanted) => {
                    assert(shape.rank == wanted.rank && shape.d0 == wanted.d0 && shape.d1
                        == wanted.d1 && shape.d2 == wanted.d2 && shape.d3 == wanted.d3 ==> shape
                        == wanted);
                },
                Rule::Optional(wanted) => {
                    assert(shape.rank == wanted.rank && shape.d0 == wanted.d0 && shape.d1
                        == wanted.d1 && shape.d2 == wanted.d2 && shape.d3 == wanted.d3 ==> shape
                        == wanted);
                },
                _ => {},
            }
        },
        _ => {},
    }
}

proof fn lemma_elements_fit(ne: Seq<u64>, k: nat)
    ensures
        0 <= element_product(ne, k) <= usize::MAX,
    decreases k,
{
    if k > 0 {
        lemma_elements_fit(ne, (k - 1) as nat);
        let before = element_product(ne, (k - 1) as nat);
        let extent = ne[k - 1] as usize;
        assert(0 <= before * extent) by (nonlinear_arith)
            requires
                0 <= before,
        ;
    }
}

/// A tensor of values holds whole blocks in the file: its bytes are to its elements as the size of
/// a block is to its elements, and none lies behind the end.
pub proof fn values_lie_within_the_file(
    tensor: Gguftensor,
    mapped_len: usize,
    wanted: Option<usize>,
)
    requires
        floats_fit(tensor, wanted),
    ensures
        floats_outcome(tensor, mapped_len, wanted) is Ok <==> {
            let elements = element_product(tensor.ne@, tensor.n_dims as nat);
            &&& wanted matches Some(n) ==> elements == n
            &&& tensor.block_size > 0
            &&& tensor.type_size > 0
            &&& elements % tensor.block_size as int == 0
            &&& tensor.data_offset + elements / tensor.block_size as int * tensor.type_size
                <= mapped_len
        },
        floats_outcome(tensor, mapped_len, wanted) matches Ok(loaded) ==> (
        loaded matches Loaded::Floats { data_offset, byte_len, elements, ttype } && {
            &&& data_offset == tensor.data_offset
            &&& ttype == tensor.ttype
            &&& elements == element_product(tensor.ne@, tensor.n_dims as nat)
            &&& byte_len * tensor.block_size == elements * tensor.type_size
            &&& data_offset + byte_len <= mapped_len
        }),
{
    let elements = element_product(tensor.ne@, tensor.n_dims as nat);
    lemma_elements_fit(tensor.ne@, tensor.n_dims as nat);
    if tensor.block_size > 0 {
        let block = tensor.block_size as int;
        let blocks = elements / block;
        vstd::arithmetic::div_mod::lemma_fundamental_div_mod(elements, block);
        vstd::arithmetic::div_mod::lemma_div_pos_is_pos(elements, block);
        assert(0 <= blocks * tensor.type_size) by (nonlinear_arith)
            requires
                0 <= blocks,
        ;
        assert((blocks * tensor.type_size) * block == (block * blocks) * tensor.type_size)
            by (nonlinear_arith);
    }
}

/// A matrix is loaded by its number of elements, a projection by both its sides; either has the
/// rows and columns that were asked for and lies where the tensor lies.
pub proof fn matrices_have_the_asked_sides(tensor: Gguftensor, rows: usize, cols: usize)
    ensures
        elements_outcome(tensor, rows, cols) is Ok <==> rows * cols <= usize::MAX
            && element_product(tensor.ne@, tensor.n_dims as nat) == rows * cols,
        projection_outcome(tensor, cols, rows) is Ok <==> tensor.n_dims >= 2 && (
        tensor.ne@[0] as usize) == cols && (tensor.ne@[1] as usize) == rows,
        elements_outcome(tensor, rows, cols) matches Ok(loaded) ==> (loaded matches Loaded::Matrix(
            matrix,
        ) && matrix.rows == rows && matrix.cols == cols && matrix.data_offset == tensor.data_offset
            && matrix.ttype == tensor.ttype),
        projection_outcome(tensor, cols, rows) matches Ok(loaded) ==> (
        loaded matches Loaded::Matrix(matrix) && matrix.rows == rows && matrix.cols == cols
            && matrix.data_offset == tensor.data_offset && matrix.ttype == tensor.ttype),
{
}

/// Where a file holds a tensor as a rule asks, and it is the one at a place of a list.
#[verifier::opaque]
pub open spec fn loaded_at(
    loaded: Seq<Loaded>,
    gguf: TensorDirectory,
    place: int,
    name: Seq<char>,
    rule: Rule,
) -> bool {
    &&& 0 <= place < loaded.len()
    &&& outcome(gguf.tensors@, gguf.mapped_len, name, rule) == Ok::<Loaded, TensorProblem>(
        loaded[place],
    )
}

/// Further tensors stand behind those that were loaded before, one for each that is asked for and
/// in that order.
pub proof fn further_tensors_follow(
    gguf: TensorDirectory,
    so_far: Seq<Loaded>,
    more: Seq<(Seq<char>, Rule)>,
)
    ensures
        with_tensors(gguf.tensors@, gguf.mapped_len, so_far, more) matches Ok(all) ==> {
            &&& all.len() == so_far.len() + more.len()
            &&& forall|i: int| 0 <= i < so_far.len() ==> #[trigger] all[i] == so_far[i]
            &&& forall|place: int, name: Seq<char>, rule: Rule|
                #[trigger] loaded_at(so_far, gguf, place, name, rule) ==> loaded_at(
                    all,
                    gguf,
                    place,
                    name,
                    rule,
                )
            &&& forall|i: int|
                0 <= i < more.len() ==> loaded_at(
                    all,
                    gguf,
                    so_far.len() + i,
                    (#[trigger] more[i]).0,
                    more[i].1,
                )
        },
{
    reveal(loaded_at);
    let tensors = gguf.tensors@;
    let mapped_len = gguf.mapped_len;
    match with_tensors(tensors, mapped_len, so_far, more) {
        Ok(all) => {
            if more.len() > 0 {
                loaded_tensors_follow_their_rules(tensors, mapped_len, more, more.len(), 0);
            }
            assert forall|i: int| 0 <= i < more.len() implies loaded_at(
                all,
                gguf,
                so_far.len() + i,
                (#[trigger] more[i]).0,
                more[i].1,
            ) by {
                loaded_tensors_follow_their_rules(tensors, mapped_len, more, more.len(), i);
            }
        },
        Err(_) => {},
    }
}

} // verus!
