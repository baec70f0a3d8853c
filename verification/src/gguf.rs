//! Tensor descriptions of a model file.
use crate::text::{decimal, signed_decimal, Text};
use vstd::prelude::*;
use vstd::string::*;

verus! {

/// A tensor of a model file.
///
/// `block_size` and `type_size` are the number of elements and of bytes per storage block of the
/// tensor's type; both are zero for a type that is not supported.
#[derive(Debug)]
pub struct Gguftensor {
    pub name: String,
    pub n_dims: u32,
    pub ne: [u64; 4],
    pub ttype: i32,
    pub data_offset: usize,
    pub block_size: usize,
    pub type_size: usize,
}

/// The tensors of a model file.
#[derive(Debug)]
pub struct TensorDirectory {
    pub tensors: Vec<Gguftensor>,
    /// The number of bytes of the mapped file.
    pub mapped_len: usize,
}

/// A quantised matrix inside a shard or a model file.
#[derive(Clone, Copy, Debug, PartialEq, Eq, Structural)]
pub struct QuantizedTensor {
    pub data_offset: usize,
    pub ttype: i32,
    pub rows: usize,
    pub cols: usize,
}

/// The tensor with the given name: the first one, where there is any.
pub open spec fn find_by_name(tensors: Seq<Gguftensor>, name: Seq<char>) -> Option<Gguftensor>
    decreases tensors.len(),
{
    if tensors.len() == 0 {
        None
    } else if tensors[0].name@ == name {
        Some(tensors[0])
    } else {
        find_by_name(tensors.skip(1), name)
    }
}

/// Finds the tensor with the given name.
pub fn find_gguf_tensor<'a>(gguf: &'a TensorDirectory, name: &String) -> (result: Option<
    &'a Gguftensor,
>)
    ensures
        match result {
            Some(tensor) => find_by_name(gguf.tensors@, name@) == Some(*tensor),
            None => find_by_name(gguf.tensors@, name@) is None,
        },
        result matches Some(tensor) ==> tensor.name@ == name@ && exists|i: int|
            0 <= i < gguf.tensors@.len() && #[trigger] gguf.tensors@[i] == *tensor,
{
    let mut i: usize = 0;
    assert(gguf.tensors@.skip(0) =~= gguf.tensors@);
    while i < gguf.tensors.len()
        invariant
            i <= gguf.tensors@.len(),
            find_by_name(gguf.tensors@, name@) == find_by_name(gguf.tensors@.skip(i as int), name@),
        decreases gguf.tensors.len() - i,
    {
        let tensor = &gguf.tensors[i];
        assert(gguf.tensors@.skip(i as int)[0] == *tensor);
        assert(gguf.tensors@.skip(i as int).skip(1) =~= gguf.tensors@.skip(i + 1));
        if tensor.name == *name {
            return Some(tensor);
        }
        i = i + 1;
    }
    None
}

/// The product of the first `k` dimensions, saturating.
pub open spec fn element_product(ne: Seq<u64>, k: nat) -> int
    decreases k,
{
    if k == 0 {
        1
    } else {
        let p = element_product(ne, (k - 1) as nat) * (ne[k - 1] as usize);
        if p > usize::MAX {
            usize::MAX as int
        } else {
            p
        }
    }
}

/// Multiplies, saturating.
pub fn saturating_product(a: usize, b: usize) -> (p: usize)
    ensures
        p == if a * b > usize::MAX {
            usize::MAX as int
        } else {
            a * b
        },
{
    match a.checked_mul(b) {
        Some(p) => p,
        None => usize::MAX,
    }
}

/// The number of elements of a tensor, saturating.
pub fn tensor_n_elements(tensor: &Gguftensor) -> (count: usize)
    requires
        tensor.n_dims <= 4,
    ensures
        count == element_product(tensor.ne@, tensor.n_dims as nat),
{
    let mut n_elements: usize = 1;
    let mut i: usize = 0;
    while i < tensor.n_dims as usize
        invariant
            i <= tensor.n_dims <= 4,
            n_elements == element_product(tensor.ne@, i as nat),
        decreases tensor.n_dims - i,
    {
        let dim: usize = #[verifier::truncate]
        (tensor.ne[i] as usize);
        n_elements = saturating_product(n_elements, dim);
        i = i + 1;
    }
    n_elements
}

/// Why the storage of a tensor cannot be sized.
#[derive(Debug)]
pub enum StorageError {
    UnsupportedType { ttype: i32, name: String },
    UnevenBlocks { name: String, elements: usize, block_size: usize },
}

impl StorageError {
    /// The message text of the error.
    pub open spec fn text(self) -> Seq<char> {
        match self {
            StorageError::UnsupportedType { ttype, name } => "unsupported GGUF tensor type "@
                + signed_decimal(ttype as int) + " for tensor '"@ + name@ + "'"@,
            StorageError::UnevenBlocks { name, elements, block_size } => "tensor '"@ + name@
                + "' element count "@ + decimal(elements as nat)
                + " is not divisible by block size "@ + decimal(block_size as nat),
        }
    }

    /// The message text of the error.
    pub fn message(&self) -> (message: String)
        ensures
            message@ == self.text(),
    {
        match self {
            StorageError::UnsupportedType { ttype, name } => Text::start(
                "unsupported GGUF tensor type ",
            ).signed(*ttype as i64).text(" for tensor '").text(name.as_str()).text("'").finish(),
            StorageError::UnevenBlocks { name, elements, block_size } => Text::start(
                "tensor '",
            ).text(name.as_str()).text("' element count ").size(*elements).text(
                " is not divisible by block size ",
            ).size(*block_size).finish(),
        }
    }
}

/// The number of bytes that the elements of a tensor take, where they fill whole blocks.
pub open spec fn storage_bytes(tensor: Gguftensor) -> int {
    element_product(tensor.ne@, tensor.n_dims as nat) / tensor.block_size as int * tensor.type_size
}

/// Whether a tensor has four dimensions at most and its size in bytes, where it has one, is a
/// machine number.
pub open spec fn tensor_fits(tensor: Gguftensor) -> bool {
    &&& tensor.n_dims <= 4
    &&& tensor.block_size > 0 && element_product(tensor.ne@, tensor.n_dims as nat)
        % tensor.block_size as int == 0 ==> storage_bytes(tensor) <= usize::MAX
}

/// Whether the tensor with the given name does, where there is one.
pub open spec fn named_fits(tensors: Seq<Gguftensor>, name: Seq<char>) -> bool {
    find_by_name(tensors, name) matches Some(tensor) ==> tensor_fits(tensor)
}

/// What sizing the storage of a tensor gives.
pub open spec fn storage_outcome(tensor: Gguftensor) -> Result<int, StorageError> {
    let elements = element_product(tensor.ne@, tensor.n_dims as nat);
    if tensor.block_size == 0 || tensor.type_size == 0 {
        Err(StorageError::UnsupportedType { ttype: tensor.ttype, name: tensor.name })
    } else if elements % tensor.block_size as int != 0 {
        Err(
            StorageError::UnevenBlocks {
                name: tensor.name,
                elements: elements as usize,
                block_size: tensor.block_size,
            },
        )
    } else {
        Ok(storage_bytes(tensor))
    }
}

/// The number of bytes that the elements of a tensor take.
pub fn tensor_storage_bytes(tensor: &Gguftensor) -> (result: Result<usize, StorageError>)
    requires
        tensor_fits(*tensor),
    ensures
        match result {
            Ok(bytes) => storage_outcome(*tensor) == Ok::<int, StorageError>(bytes as int),
            Err(error) => storage_outcome(*tensor) == Err::<int, StorageError>(error),
        },
{
    let n_elements: usize = tensor_n_elements(tensor);
    let block_size: usize = tensor.block_size;
    let type_size: usize = tensor.type_size;
    if block_size == 0 || type_size == 0 {
        return Err(
            StorageError::UnsupportedType { ttype: tensor.ttype, name: tensor.name.clone() },
        );
    }
    if n_elements % block_size != 0 {
        return Err(
            StorageError::UnevenBlocks {
                name: tensor.name.clone(),
                elements: n_elements,
                block_size,
            },
        );
    }
    let blocks: usize = n_elements / block_size;
    assert(blocks * type_size >= 0) by (nonlinear_arith);
    Ok(blocks * type_size)
}

/// The first tensor of a name is found; none is found exactly where no tensor has the name.
pub proof fn the_first_tensor_of_a_name_is_found(tensors: Seq<Gguftensor>, name: Seq<char>)
    ensures
        forall|i: int|
            0 <= i < tensors.len() && (#[trigger] tensors[i]).name@ == name && (forall|j: int|
                0 <= j < i ==> (#[trigger] tensors[j]).name@ != name) ==> find_by_name(tensors, name)
                == Some(tensors[i]),
        find_by_name(tensors, name) is None <==> forall|j: int|
            0 <= j < tensors.len() ==> (#[trigger] tensors[j]).name@ != name,
    decreases tensors.len(),
{
    if tensors.len() > 0 && tensors[0].name@ != name {
        let rest = tensors.skip(1);
        the_first_tensor_of_a_name_is_found(rest, name);
        assert forall|i: int| 0 <= i < rest.len() implies #[trigger] rest[i] == tensors[i + 1] by {}
        assert forall|i: int|
            0 <= i < tensors.len() && (#[trigger] tensors[i]).name@ == name && (forall|j: int|
                0 <= j < i ==> (#[trigger] tensors[j]).name@
                    != name) implies find_by_name(tensors, name) == Some(tensors[i]) by {
            assert(rest[i - 1] == tensors[i]);
            assert forall|j: int| 0 <= j < i - 1 implies (#[trigger] rest[j]).name@ != name by {
                assert(rest[j] == tensors[j + 1]);
            }
        }
        if find_by_name(tensors, name) is None {
            assert forall|j: int| 0 <= j < tensors.len() implies (#[trigger] tensors[j]).name@
                != name by {
                if j > 0 {
                    assert(rest[j - 1] == tensors[j]);
                }
            }
        }
        if forall|j: int| 0 <= j < tensors.len() ==> (#[trigger] tensors[j]).name@ != name {
            assert forall|j: int| 0 <= j < rest.len() implies (#[trigger] rest[j]).name@ != name by {
                assert(rest[j] == tensors[j + 1]);
            }
        }
    }
}

/// A tensor has as many elements as its dimensions multiply to, where they are machine numbers and
/// so is their product.
pub proof fn elements_are_the_product_of_dimensions(a: u64, b: u64, c: u64, d: u64)
    requires
        0 < a <= usize::MAX,
        0 < b <= usize::MAX,
        0 < c <= usize::MAX,
        0 < d <= usize::MAX,
        a * b * c * d <= usize::MAX,
    ensures
        element_product(seq![a, b, c, d], 0) == 1,
        element_product(seq![a, b, c, d], 1) == a,
        element_product(seq![a, b, c, d], 2) == a * b,
        element_product(seq![a, b, c, d], 3) == a * b * c,
        element_product(seq![a, b, c, d], 4) == a * b * c * d,
{
    let ne = seq![a, b, c, d];
    assert(0 < a * b) by (nonlinear_arith)
        requires
            a > 0,
            b > 0,
    ;
    let ab = a * b;
    assert(0 < ab * c && ab <= ab * c) by (nonlinear_arith)
        requires
            ab > 0,
            c > 0,
    ;
    let abc = ab * c;
    assert(abc <= abc * d) by (nonlinear_arith)
        requires
            abc > 0,
            d > 0,
    ;
    assert(ne[0] == a && ne[1] == b && ne[2] == c && ne[3] == d);
    assert(element_product(ne, 0) == 1);
    assert(element_product(ne, 1) == 1 * (a as usize));
    assert(element_product(ne, 2) == a * b);
    assert(element_product(ne, 3) == ab * c);
    assert(element_product(ne, 4) == abc * d);
}

/// The bytes of a tensor are to its elements as the bytes of a block are to the elements of one; it
/// has no size exactly where its type is not supported or its elements do not fill blocks.
pub proof fn storage_is_whole_blocks(tensor: Gguftensor)
    ensures
        ({
            let elements = element_product(tensor.ne@, tensor.n_dims as nat);
            match storage_outcome(tensor) {
                Ok(bytes) => tensor.block_size > 0 && tensor.type_size > 0 && bytes
                    * tensor.block_size == elements * tensor.type_size,
                Err(_) => tensor.block_size == 0 || tensor.type_size == 0 || elements
                    % tensor.block_size as int != 0,
            }
        }),
{
    let elements = element_product(tensor.ne@, tensor.n_dims as nat);
    if tensor.block_size > 0 && elements % tensor.block_size as int == 0 {
        let b = tensor.block_size as int;
        let t = tensor.type_size as int;
        vstd::arithmetic::div_mod::lemma_fundamental_div_mod(elements, b);
        let q = elements / b;
        assert((q * t) * b == (b * q) * t) by (nonlinear_arith);
    }
}

} // verus!
