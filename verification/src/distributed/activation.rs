//! Activation vectors on the wire.
//!
//! Values are single-precision bit patterns. The half-precision forms are encoded from the
//! patterns; the 8-bit form is carried as its scale pattern and its quantised values.
use crate::bits::{bf16_to_fp32, bfloat_widened, encode_fp32_scalar_to_bf16_bits,
    encode_fp32_scalar_to_fp16_bits, fp16_to_fp32, half_widened, wire_bfloat, wire_half};
use crate::bytes::{
    le16, le16_bytes, le32, le32_bytes, lemma_le16_reads_back, lemma_le32_reads_back, starts,
    u16_at, u32_at,
};
use crate::distributed::protocol::{write_u16_le, write_u32_le, ActivationDtype, ProtocolError};
use vstd::prelude::*;

verus! {

broadcast use crate::bytes::group_little_endian;

/// An activation vector in the form in which it is sent.
#[derive(Debug)]
pub enum ActivationValues {
    /// Single-precision patterns, sent in half precision.
    Fp16(Vec<u32>),
    /// Single-precision patterns, sent as bfloat16.
    Bf16(Vec<u32>),
    /// The pattern of the scale, and the values in units of the scale.
    Q8 { scale: u32, quantized: Vec<i8> },
}

/// The contents of [`ActivationValues`].
#[verifier::ext_equal]
pub enum ActivationView {
    Fp16(Seq<u32>),
    Bf16(Seq<u32>),
    Q8(u32, Seq<i8>),
}

impl View for ActivationValues {
    type V = ActivationView;

    open spec fn view(&self) -> ActivationView {
        match *self {
            ActivationValues::Fp16(bits) => ActivationView::Fp16(bits@),
            ActivationValues::Bf16(bits) => ActivationView::Bf16(bits@),
            ActivationValues::Q8 { scale, quantized } => ActivationView::Q8(scale, quantized@),
        }
    }
}

impl ActivationView {
    /// The representation on the wire.
    pub open spec fn dtype(self) -> ActivationDtype {
        match self {
            ActivationView::Fp16(_) => ActivationDtype::Fp16,
            ActivationView::Bf16(_) => ActivationDtype::Bf16,
            ActivationView::Q8(_, _) => ActivationDtype::Q8,
        }
    }

    /// The number of values.
    pub open spec fn count(self) -> nat {
        match self {
            ActivationView::Fp16(bits) => bits.len(),
            ActivationView::Bf16(bits) => bits.len(),
            ActivationView::Q8(_, quantized) => quantized.len(),
        }
    }

    /// The vector as it arrives: half-precision forms are rounded, the 8-bit form is unchanged.
    pub open spec fn rounded(self) -> ActivationView {
        match self {
            ActivationView::Fp16(bits) => ActivationView::Fp16(
                Seq::new(bits.len(), |i: int| half_widened(wire_half(bits[i]) as u16) as u32),
            ),
            ActivationView::Bf16(bits) => ActivationView::Bf16(
                Seq::new(bits.len(), |i: int| bfloat_widened(wire_bfloat(bits[i]) as u16) as u32),
            ),
            ActivationView::Q8(scale, quantized) => self,
        }
    }
}

/// The byte of a signed 8-bit value.
pub open spec fn pattern8(v: i8) -> u8 {
    if v < 0 {
        (v + 256) as u8
    } else {
        v as u8
    }
}

/// The signed 8-bit value of a byte.
pub open spec fn signed8(b: u8) -> i8 {
    if b < 128 {
        b as i8
    } else {
        (b - 256) as i8
    }
}

/// The concatenated two-byte encodings of 16-bit values.
pub open spec fn le16_list(values: Seq<int>) -> Seq<u8>
    decreases values.len(),
{
    if values.len() == 0 {
        Seq::empty()
    } else {
        le16_list(values.drop_last()) + le16_bytes(values.last())
    }
}

/// The half-precision patterns of single-precision patterns.
pub open spec fn halves(bits: Seq<u32>) -> Seq<int> {
    bits.map(|i: int, b: u32| wire_half(b))
}

/// The bfloat16 patterns of single-precision patterns.
pub open spec fn bfloats(bits: Seq<u32>) -> Seq<int> {
    bits.map(|i: int, b: u32| wire_bfloat(b))
}

/// The encoding of an activation vector.
pub open spec fn activation_bytes(v: ActivationView) -> Seq<u8> {
    match v {
        ActivationView::Fp16(bits) => le16_list(halves(bits)),
        ActivationView::Bf16(bits) => le16_list(bfloats(bits)),
        ActivationView::Q8(scale, quantized) => le32_bytes(scale as int) + quantized.map(
            |i: int, q: i8| pattern8(q),
        ),
    }
}

/// The number of bytes of an encoded vector of `dim` values.
pub open spec fn exact_encoded_len(dim: int, dtype: ActivationDtype) -> int {
    match dtype {
        ActivationDtype::Q8 => 4 + dim,
        _ => 2 * dim,
    }
}

/// The number of bytes of an encoded vector of `dim` values, saturating.
pub open spec fn encoded_len(dim: int, dtype: ActivationDtype) -> int {
    if exact_encoded_len(dim, dtype) > usize::MAX {
        usize::MAX as int
    } else {
        exact_encoded_len(dim, dtype)
    }
}

/// What decoding `s` as a vector of `dim` values gives.
pub open spec fn decoded_activation(s: Seq<u8>, dtype: ActivationDtype, dim: usize) -> Result<
    ActivationView,
    ProtocolError,
> {
    if s.len() != exact_encoded_len(dim as int, dtype) {
        Err(
            ProtocolError::ActivationSizeMismatch {
                got: s.len() as usize,
                expected: encoded_len(dim as int, dtype) as usize,
            },
        )
    } else {
        Ok(
            match dtype {
                ActivationDtype::Fp16 => ActivationView::Fp16(
                    Seq::new(dim as nat, |i: int| half_widened(le16(s, 2 * i) as u16) as u32),
                ),
                ActivationDtype::Bf16 => ActivationView::Bf16(
                    Seq::new(dim as nat, |i: int| bfloat_widened(le16(s, 2 * i) as u16) as u32),
                ),
                ActivationDtype::Q8 => ActivationView::Q8(
                    le32(s, 0) as u32,
                    Seq::new(dim as nat, |i: int| signed8(s[4 + i])),
                ),
            },
        )
    }
}

impl ActivationValues {
    /// The representation on the wire.
    pub fn dtype(&self) -> (dtype: ActivationDtype)
        ensures
            dtype == self@.dtype(),
    {
        match self {
            ActivationValues::Fp16(_) => ActivationDtype::Fp16,
            ActivationValues::Bf16(_) => ActivationDtype::Bf16,
            ActivationValues::Q8 { .. } => ActivationDtype::Q8,
        }
    }

    /// The number of values.
    pub fn len(&self) -> (count: usize)
        ensures
            count == self@.count(),
    {
        match self {
            ActivationValues::Fp16(bits) => bits.len(),
            ActivationValues::Bf16(bits) => bits.len(),
            ActivationValues::Q8 { scale: _, quantized } => quantized.len(),
        }
    }
}

/// Appends single-precision patterns in half precision.
pub fn encode_fp16_vector(values: &Vec<u32>, out: &mut Vec<u8>)
    ensures
        final(out)@ == old(out)@ + le16_list(halves(values@)),
{
    let mut i: usize = 0;
    let ghost all = halves(values@);
    assert(out@ =~= old(out)@ + le16_list(all.take(0)));
    while i < values.len()
        invariant
            i <= values.len(),
            all == halves(values@),
            out@ == old(out)@ + le16_list(all.take(i as int)),
        decreases values.len() - i,
    {
        write_u16_le(out, encode_fp32_scalar_to_fp16_bits(values[i]));
        proof {
            let next = all.take(i + 1);
            assert(next.drop_last() =~= all.take(i as int));
            assert(out@ =~= old(out)@ + le16_list(next));
        }
        i = i + 1;
    }
    assert(all.take(i as int) =~= all);
}

/// Appends single-precision patterns as bfloat16.
pub fn encode_bf16_vector(values: &Vec<u32>, out: &mut Vec<u8>)
    ensures
        final(out)@ == old(out)@ + le16_list(bfloats(values@)),
{
    let mut i: usize = 0;
    let ghost all = bfloats(values@);
    assert(out@ =~= old(out)@ + le16_list(all.take(0)));
    while i < values.len()
        invariant
            i <= values.len(),
            all == bfloats(values@),
            out@ == old(out)@ + le16_list(all.take(i as int)),
        decreases values.len() - i,
    {
        write_u16_le(out, encode_fp32_scalar_to_bf16_bits(values[i]));
        proof {
            let next = all.take(i + 1);
            assert(next.drop_last() =~= all.take(i as int));
            assert(out@ =~= old(out)@ + le16_list(next));
        }
        i = i + 1;
    }
    assert(all.take(i as int) =~= all);
}

/// Appends the encoding of an activation vector.
pub fn encode_activation_vector(values: &ActivationValues, out: &mut Vec<u8>)
    ensures
        final(out)@ == old(out)@ + activation_bytes(values@),
{
    match values {
        ActivationValues::Fp16(bits) => encode_fp16_vector(bits, out),
        ActivationValues::Bf16(bits) => encode_bf16_vector(bits, out),
        ActivationValues::Q8 { scale, quantized } => {
            write_u32_le(out, *scale);
            let ghost head = out@;
            let ghost all = quantized@.map(|i: int, q: i8| pattern8(q));
            let mut i: usize = 0;
            assert(out@ =~= head + all.take(0));
            while i < quantized.len()
                invariant
                    i <= quantized.len(),
                    all == quantized@.map(|i: int, q: i8| pattern8(q)),
                    out@ == head + all.take(i as int),
                decreases quantized.len() - i,
            {
                let q: i8 = quantized[i];
                let byte: u8 = if q < 0 { (q as i16 + 256) as u8 } else { q as u8 };
                out.push(byte);
                assert(out@ =~= head + all.take(i + 1));
                i = i + 1;
            }
            assert(all.take(i as int) =~= all);
            assert(out@ =~= old(out)@ + activation_bytes(values@));
        },
    }
}

/// The number of bytes of an encoded vector of `dim` values, saturating.
pub fn activation_vector_encoded_len(dim: usize, dtype: ActivationDtype) -> (len: usize)
    ensures
        len == encoded_len(dim as int, dtype),
{
    match dtype {
        ActivationDtype::Q8 => 4usize.saturating_add(dim),
        _ => match dim.checked_mul(2) {
            Some(len) => len,
            None => usize::MAX,
        },
    }
}

/// Decodes a vector of `dim` values.
pub fn decode_activation_vector(bytes: &[u8], dtype: ActivationDtype, dim: usize) -> (result:
    Result<ActivationValues, ProtocolError>)
    ensures
        match result {
            Ok(values) => decoded_activation(bytes@, dtype, dim) == Ok::<
                ActivationView,
                ProtocolError,
            >(values@),
            Err(error) => decoded_activation(bytes@, dtype, dim) == Err::<
                ActivationView,
                ProtocolError,
            >(error),
        },
{
    let expected: usize = activation_vector_encoded_len(dim, dtype);
    let exact: bool = match dtype {
        ActivationDtype::Q8 => dim <= usize::MAX - 4,
        _ => dim <= usize::MAX / 2,
    };
    if !exact || bytes.len() != expected {
        return Err(ProtocolError::ActivationSizeMismatch { got: bytes.len(), expected });
    }
    match dtype {
        ActivationDtype::Fp16 => {
            let mut out: Vec<u32> = Vec::new();
            while out.len() < dim
                invariant
                    out.len() <= dim,
                    bytes@.len() == 2 * dim,
                    2 * dim <= usize::MAX,
                    out@ == Seq::new(
                        out@.len(),
                        |i: int| half_widened(le16(bytes@, 2 * i) as u16) as u32,
                    ),
                decreases dim - out.len(),
            {
                let at: usize = out.len() * 2;
                out.push(fp16_to_fp32(u16_at(bytes, at)));
                assert(out@ =~= Seq::new(
                    out@.len(),
                    |i: int| half_widened(le16(bytes@, 2 * i) as u16) as u32,
                ));
            }
            Ok(ActivationValues::Fp16(out))
        },
        ActivationDtype::Bf16 => {
            let mut out: Vec<u32> = Vec::new();
            while out.len() < dim
                invariant
                    out.len() <= dim,
                    bytes@.len() == 2 * dim,
                    2 * dim <= usize::MAX,
                    out@ == Seq::new(
                        out@.len(),
                        |i: int| bfloat_widened(le16(bytes@, 2 * i) as u16) as u32,
                    ),
                decreases dim - out.len(),
            {
                let at: usize = out.len() * 2;
                out.push(bf16_to_fp32(u16_at(bytes, at)));
                assert(out@ =~= Seq::new(
                    out@.len(),
                    |i: int| bfloat_widened(le16(bytes@, 2 * i) as u16) as u32,
                ));
            }
            Ok(ActivationValues::Bf16(out))
        },
        ActivationDtype::Q8 => {
            let scale: u32 = u32_at(bytes, 0);
            let mut quantized: Vec<i8> = Vec::new();
            while quantized.len() < dim
                invariant
                    quantized.len() <= dim,
                    bytes@.len() == 4 + dim,
                    4 + dim <= usize::MAX,
                    quantized@ == Seq::new(quantized@.len(), |i: int| signed8(bytes@[4 + i])),
                decreases dim - quantized.len(),
            {
                let byte: u8 = bytes[4 + quantized.len()];
                let value: i8 = if byte < 128 { byte as i8 } else { (byte as i16 - 256) as i8 };
                quantized.push(value);
                assert(quantized@ =~= Seq::new(
                    quantized@.len(),
                    |i: int| signed8(bytes@[4 + i]),
                ));
            }
            Ok(ActivationValues::Q8 { scale, quantized })
        },
    }
}

proof fn lemma_le16_list_len(values: Seq<int>)
    ensures
        le16_list(values).len() == 2 * values.len(),
    decreases values.len(),
{
    if values.len() > 0 {
        lemma_le16_list_len(values.drop_last());
    }
}

proof fn lemma_le16_list_reads_back(s: Seq<u8>, values: Seq<int>)
    requires
        forall|i: int| 0 <= i < values.len() ==> 0 <= #[trigger] values[i] <= u16::MAX,
        starts(s, le16_list(values)),
    ensures
        forall|i: int| 0 <= i < values.len() ==> le16(s, 2 * i) == #[trigger] values[i],
    decreases values.len(),
{
    if values.len() > 0 {
        let front = values.drop_last();
        lemma_le16_list_len(front);
        lemma_le16_reads_back(s, le16_list(front), values.last());
        assert forall|i: int| 0 <= i < front.len() implies 0 <= #[trigger] front[i] <= u16::MAX by {
            assert(front[i] == values[i]);
        }
        lemma_le16_list_reads_back(s, front);
        assert forall|i: int| 0 <= i < values.len() implies le16(s, 2 * i)
            == #[trigger] values[i] by {
            if i < front.len() {
                assert(front[i] == values[i]);
            }
        }
    }
}

/// An encoded vector has the announced number of bytes.
pub proof fn encoded_vector_len(v: ActivationView)
    ensures
        activation_bytes(v).len() == exact_encoded_len(v.count() as int, v.dtype()),
{
    match v {
        ActivationView::Fp16(bits) => lemma_le16_list_len(halves(bits)),
        ActivationView::Bf16(bits) => lemma_le16_list_len(bfloats(bits)),
        ActivationView::Q8(_, _) => {},
    }
}

/// Decoding an encoded vector gives it back, rounded where it was sent in half precision.
pub proof fn activation_round_trip(v: ActivationView)
    requires
        v.count() <= usize::MAX,
    ensures
        decoded_activation(activation_bytes(v), v.dtype(), v.count() as usize) == Ok::<
            ActivationView,
            ProtocolError,
        >(v.rounded()),
{
    let s = activation_bytes(v);
    encoded_vector_len(v);
    match v {
        ActivationView::Fp16(bits) => {
            let values = halves(bits);
            assert forall|i: int| 0 <= i < values.len() implies 0 <= #[trigger] values[i]
                <= u16::MAX by {
                lemma_wire_half_range(bits[i]);
            }
            lemma_le16_list_reads_back(s, values);
            let got = Seq::new(bits.len(), |i: int| half_widened(le16(s, 2 * i) as u16) as u32);
            assert forall|i: int| 0 <= i < bits.len() implies #[trigger] got[i] == half_widened(
                wire_half(bits[i]) as u16,
            ) as u32 by {
                assert(values[i] == wire_half(bits[i]));
            }
            assert(got =~= v.rounded()->Fp16_0);
        },
        ActivationView::Bf16(bits) => {
            let values = bfloats(bits);
            lemma_le16_list_reads_back(s, values);
            let got = Seq::new(bits.len(), |i: int| bfloat_widened(le16(s, 2 * i) as u16) as u32);
            assert forall|i: int| 0 <= i < bits.len() implies #[trigger] got[i] == bfloat_widened(
                wire_bfloat(bits[i]) as u16,
            ) as u32 by {
                assert(values[i] == wire_bfloat(bits[i]));
            }
            assert(got =~= v.rounded()->Bf16_0);
        },
        ActivationView::Q8(scale, quantized) => {
            assert(Seq::<u8>::empty() + le32_bytes(scale as int) =~= le32_bytes(scale as int));
            assert(starts(s, le32_bytes(scale as int)));
            lemma_le32_reads_back(s, Seq::empty(), scale as int);
            let got = Seq::new(quantized.len(), |i: int| signed8(s[4 + i]));
            assert(got =~= quantized);
        },
    }
}

proof fn lemma_wire_half_range(b: u32)
    ensures
        0 <= wire_half(b) <= u16::MAX,
{
    crate::bits::wire_half_fits(b);
}

/// Half-precision forms hold one number behind the other; the 8-bit form holds its scale and then
/// one byte for each value, negative ones with 256 added.
pub proof fn vectors_are_laid_out_in_order(v: ActivationView, i: int)
    requires
        0 <= i < v.count(),
    ensures
        ({
            let s = activation_bytes(v);
            match v {
                ActivationView::Fp16(bits) => s.len() == 2 * bits.len() && le16(s, 2 * i)
                    == wire_half(bits[i]),
                ActivationView::Bf16(bits) => s.len() == 2 * bits.len() && le16(s, 2 * i)
                    == wire_bfloat(bits[i]),
                ActivationView::Q8(scale, quantized) => s.len() == 4 + quantized.len() && le32(s, 0)
                    == scale && s[4 + i] == if quantized[i] < 0 {
                    quantized[i] + 256
                } else {
                    quantized[i] as int
                },
            }
        }),
{
    let s = activation_bytes(v);
    encoded_vector_len(v);
    match v {
        ActivationView::Fp16(bits) => {
            let values = halves(bits);
            assert forall|k: int| 0 <= k < values.len() implies 0 <= #[trigger] values[k]
                <= u16::MAX by {
                lemma_wire_half_range(bits[k]);
            }
            lemma_le16_list_reads_back(s, values);
            assert(values[i] == wire_half(bits[i]));
        },
        ActivationView::Bf16(bits) => {
            let values = bfloats(bits);
            lemma_le16_list_reads_back(s, values);
            assert(values[i] == wire_bfloat(bits[i]));
        },
        ActivationView::Q8(scale, quantized) => {
            assert(Seq::<u8>::empty() + le32_bytes(scale as int) =~= le32_bytes(scale as int));
            assert(starts(s, le32_bytes(scale as int)));
            lemma_le32_reads_back(s, Seq::empty(), scale as int);
        },
    }
}

} // verus!
