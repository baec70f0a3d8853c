//! The buffers of the image encoder's arithmetic.
use crate::gguf::QuantizedTensor;
use crate::multimodal::qwen3_asr::GGML_TYPE_BF16;
use crate::text::{decimal, Text};
use vstd::prelude::*;
use vstd::string::*;

verus! {

/// Why buffers do not fit the arithmetic on them.
#[derive(Clone, Copy, Debug, PartialEq, Eq, Structural)]
pub enum BufferError {
    MatrixOverflow,
    OffsetOverflow,
    MatrixBuffers,
    PositionOverflow,
    PositionSize { got: usize, expected: usize, grid: usize, dim: usize },
}

impl BufferError {
    /// The message text of the error.
    pub open spec fn text(self) -> Seq<char> {
        match self {
            BufferError::MatrixOverflow => "BF16 encoder matrix size overflow"@,
            BufferError::OffsetOverflow => "BF16 encoder offset overflow"@,
            BufferError::MatrixBuffers => "invalid BF16 encoder matrix buffers"@,
            BufferError::PositionOverflow => "position embedding shape overflow"@,
            BufferError::PositionSize { got, expected, grid, dim } =>
                "invalid gemma3 position embedding tensor size: got "@ + decimal(got as nat)
                    + ", expected "@ + decimal(expected as nat) + " (grid="@ + decimal(grid as nat)
                    + " dim="@ + decimal(dim as nat) + ")"@,
        }
    }

    /// The message text of the error.
    pub fn message(self) -> (message: String)
        ensures
            message@ == self.text(),
    {
        match self {
            BufferError::MatrixOverflow => Text::start(
                "BF16 encoder matrix size overflow",
            ).finish(),
            BufferError::OffsetOverflow => Text::start("BF16 encoder offset overflow").finish(),
            BufferError::MatrixBuffers => Text::start(
                "invalid BF16 encoder matrix buffers",
            ).finish(),
            BufferError::PositionOverflow => Text::start(
                "position embedding shape overflow",
            ).finish(),
            BufferError::PositionSize { got, expected, grid, dim } => Text::start(
                "invalid gemma3 position embedding tensor size: got ",
            ).size(got).text(", expected ").size(expected).text(" (grid=").size(grid).text(
                " dim=",
            ).size(dim).text(")").finish(),
        }
    }
}

/// What is wrong with multiplying rows by a bfloat16 matrix, if anything is.
pub open spec fn matrix_problem(
    weight: QuantizedTensor,
    mapped_len: usize,
    source_len: usize,
    output_len: usize,
    tokens: usize,
) -> Option<BufferError> {
    let bytes = weight.cols * weight.rows * 2;
    if bytes > usize::MAX {
        Some(BufferError::MatrixOverflow)
    } else if weight.data_offset + bytes > usize::MAX {
        Some(BufferError::OffsetOverflow)
    } else if weight.ttype != GGML_TYPE_BF16 || weight.cols == 0 || weight.rows == 0
        || weight.data_offset + bytes > mapped_len || weight.cols * tokens != source_len
        || weight.rows * tokens != output_len {
        Some(BufferError::MatrixBuffers)
    } else {
        None
    }
}

/// Whether a product is exactly the given length.
fn is_product(a: usize, b: usize, len: usize) -> (r: bool)
    ensures
        r == (a * b == len),
{
    match a.checked_mul(b) {
        Some(p) => p == len,
        None => false,
    }
}

/// Checks the buffers of a product with a bfloat16 matrix, and gives the end of the matrix.
pub fn plan_matmul_bf16(
    weight: QuantizedTensor,
    mapped_len: usize,
    source_len: usize,
    output_len: usize,
    tokens: usize,
) -> (result: Result<usize, BufferError>)
    ensures
        match result {
            Ok(end) => matrix_problem(weight, mapped_len, source_len, output_len, tokens) is None
                && end == weight.data_offset + weight.cols * weight.rows * 2 && end <= mapped_len,
            Err(error) => matrix_problem(weight, mapped_len, source_len, output_len, tokens)
                == Some(error),
        },
{
    assert(weight.cols * weight.rows >= 0) by (nonlinear_arith);
    let count: usize = match weight.cols.checked_mul(weight.rows) {
        Some(count) => count,
        None => return Err(BufferError::MatrixOverflow),
    };
    let bytes: usize = match count.checked_mul(2) {
        Some(bytes) => bytes,
        None => return Err(BufferError::MatrixOverflow),
    };
    let end: usize = match weight.data_offset.checked_add(bytes) {
        Some(end) => end,
        None => return Err(BufferError::OffsetOverflow),
    };
    if weight.ttype != GGML_TYPE_BF16 || weight.cols == 0 || weight.rows == 0 || end > mapped_len
        || !is_product(weight.cols, tokens, source_len) || !is_product(
        weight.rows,
        tokens,
        output_len,
    ) {
        return Err(BufferError::MatrixBuffers);
    }
    Ok(end)
}

/// Checks the table of position embeddings, and gives the side of its grid.
pub fn check_position_table(
    values: usize,
    base_image_size: usize,
    patch_size: usize,
    dim: usize,
) -> (result: Result<usize, BufferError>)
    requires
        patch_size > 0,
    ensures
        ({
            let grid = base_image_size as int / patch_size as int;
            result == if grid * grid > usize::MAX || grid * grid * dim > usize::MAX {
                Err::<usize, BufferError>(BufferError::PositionOverflow)
            } else if values != grid * grid * dim {
                Err(
                    BufferError::PositionSize {
                        got: values,
                        expected: (grid * grid * dim) as usize,
                        grid: grid as usize,
                        dim,
                    },
                )
            } else {
                Ok(grid as usize)
            }
        }),
{
    let grid: usize = base_image_size / patch_size;
    let area: usize = match grid.checked_mul(grid) {
        Some(area) => area,
        None => return Err(BufferError::PositionOverflow),
    };
    let expected: usize = match area.checked_mul(dim) {
        Some(expected) => expected,
        None => return Err(BufferError::PositionOverflow),
    };
    if values != expected {
        return Err(BufferError::PositionSize { got: values, expected, grid, dim });
    }
    Ok(grid)
}

/// A product with a bfloat16 matrix is run exactly where the matrix lies within the file, two bytes
/// for each weight, and the buffers hold a row of its columns and a row of its rows for each token.
pub proof fn products_are_accepted_where_buffers_fit(
    weight: QuantizedTensor,
    mapped_len: usize,
    source_len: usize,
    output_len: usize,
    tokens: usize,
)
    ensures
        matrix_problem(weight, mapped_len, source_len, output_len, tokens) is None <==> {
            &&& weight.ttype == 30
            &&& weight.cols > 0
            &&& weight.rows > 0
            &&& weight.data_offset + 2 * (weight.cols * weight.rows) <= mapped_len
            &&& source_len == tokens * weight.cols
            &&& output_len == tokens * weight.rows
        },
{
    assert(weight.cols * tokens == tokens * weight.cols) by (nonlinear_arith);
    assert(weight.rows * tokens == tokens * weight.rows) by (nonlinear_arith);
    assert(weight.cols * weight.rows * 2 == 2 * (weight.cols * weight.rows)) by (nonlinear_arith);
    assert(weight.cols * weight.rows >= 0) by (nonlinear_arith);
}

} // verus!
