//! Little-endian integers in byte sequences.
use vstd::prelude::*;

verus! {

/// The 16-bit little-endian value at `at`.
#[verifier::opaque]
pub open spec fn le16(s: Seq<u8>, at: int) -> int {
    s[at] + 256 * s[at + 1]
}

/// The 32-bit little-endian value at `at`.
#[verifier::opaque]
pub open spec fn le32(s: Seq<u8>, at: int) -> int {
    s[at] + 256 * s[at + 1] + 65536 * s[at + 2] + 16777216 * s[at + 3]
}

/// The 64-bit little-endian value at `at`.
#[verifier::opaque]
pub open spec fn le64(s: Seq<u8>, at: int) -> int {
    le32(s, at) + 4294967296 * le32(s, at + 4)
}

/// The two bytes of a 16-bit value, low byte first.
#[verifier::opaque]
pub open spec fn le16_bytes(v: int) -> Seq<u8> {
    seq![(v % 256) as u8, (v / 256 % 256) as u8]
}

/// The four bytes of a 32-bit value, low byte first.
#[verifier::opaque]
pub open spec fn le32_bytes(v: int) -> Seq<u8> {
    seq![
        (v % 256) as u8,
        (v / 256 % 256) as u8,
        (v / 65536 % 256) as u8,
        (v / 16777216 % 256) as u8,
    ]
}

/// The eight bytes of a 64-bit value, low byte first.
#[verifier::opaque]
pub open spec fn le64_bytes(v: int) -> Seq<u8> {
    le32_bytes(v % 4294967296) + le32_bytes(v / 4294967296)
}

/// The 32-bit two's complement reading of a 32-bit pattern.
pub open spec fn signed32(v: int) -> int {
    if v < 2147483648 {
        v
    } else {
        v - 4294967296
    }
}

/// The 32-bit pattern of a signed value.
pub open spec fn pattern32(v: int) -> int {
    if v < 0 {
        v + 4294967296
    } else {
        v
    }
}

/// The concatenated four-byte encodings of a sequence of 32-bit values.
pub open spec fn le32_list(values: Seq<int>) -> Seq<u8>
    decreases values.len(),
{
    if values.len() == 0 {
        Seq::empty()
    } else {
        le32_list(values.drop_last()) + le32_bytes(values.last())
    }
}

/// Whether `s` starts with `prefix`.
pub open spec fn starts(s: Seq<u8>, prefix: Seq<u8>) -> bool {
    &&& prefix.len() <= s.len()
    &&& forall|i: int| 0 <= i < prefix.len() ==> #[trigger] s[i] == prefix[i]
}

pub broadcast proof fn lemma_le16_range(s: Seq<u8>, at: int)
    ensures
        0 <= #[trigger] le16(s, at) <= u16::MAX,
{
    reveal(le16);
}

pub broadcast proof fn lemma_le32_range(s: Seq<u8>, at: int)
    ensures
        0 <= #[trigger] le32(s, at) <= u32::MAX,
{
    reveal(le32);
}

pub broadcast proof fn lemma_le64_range(s: Seq<u8>, at: int)
    ensures
        0 <= #[trigger] le64(s, at) <= u64::MAX,
{
    reveal(le64);
    reveal(le32);
}

pub broadcast proof fn lemma_le16_bytes_len(v: int)
    ensures
        #[trigger] le16_bytes(v).len() == 2,
{
    reveal(le16_bytes);
}

pub broadcast proof fn lemma_le32_bytes_len(v: int)
    ensures
        #[trigger] le32_bytes(v).len() == 4,
{
    reveal(le32_bytes);
}

pub broadcast proof fn lemma_le64_bytes_len(v: int)
    ensures
        #[trigger] le64_bytes(v).len() == 8,
{
    reveal(le64_bytes);
    reveal(le32_bytes);
}

pub broadcast group group_little_endian {
    lemma_le16_range,
    lemma_le32_range,
    lemma_le64_range,
    lemma_le16_bytes_len,
    lemma_le32_bytes_len,
    lemma_le64_bytes_len,
}

/// What starts with two parts starts with the first.
pub proof fn lemma_starts_shorter(s: Seq<u8>, a: Seq<u8>, b: Seq<u8>)
    requires
        starts(s, a + b),
    ensures
        starts(s, a),
        a.len() + b.len() <= s.len(),
{
    assert forall|i: int| 0 <= i < a.len() implies #[trigger] s[i] == a[i] by {
        assert((a + b)[i] == a[i]);
    }
}

/// What was written as 16 bits after `pre` is read back at its end.
pub proof fn lemma_le16_reads_back(s: Seq<u8>, pre: Seq<u8>, v: int)
    requires
        0 <= v <= u16::MAX,
        starts(s, pre + le16_bytes(v)),
    ensures
        pre.len() + 2 <= s.len(),
        le16(s, pre.len() as int) == v,
        starts(s, pre),
{
    reveal(le16);
    reveal(le16_bytes);
    let n = pre.len() as int;
    let w = pre + le16_bytes(v);
    lemma_starts_shorter(s, pre, le16_bytes(v));
    assert(s[n] == w[n] && s[n + 1] == w[n + 1]);
    assert(w[n] == le16_bytes(v)[0] && w[n + 1] == le16_bytes(v)[1]);
}

/// What was written as 32 bits after `pre` is read back at its end.
pub proof fn lemma_le32_reads_back(s: Seq<u8>, pre: Seq<u8>, v: int)
    requires
        0 <= v <= u32::MAX,
        starts(s, pre + le32_bytes(v)),
    ensures
        pre.len() + 4 <= s.len(),
        le32(s, pre.len() as int) == v,
        starts(s, pre),
{
    reveal(le32);
    reveal(le32_bytes);
    let n = pre.len() as int;
    let w = pre + le32_bytes(v);
    lemma_starts_shorter(s, pre, le32_bytes(v));
    assert(s[n] == w[n] && s[n + 1] == w[n + 1] && s[n + 2] == w[n + 2] && s[n + 3] == w[n + 3]);
    assert(w[n] == le32_bytes(v)[0] && w[n + 1] == le32_bytes(v)[1]);
    assert(w[n + 2] == le32_bytes(v)[2] && w[n + 3] == le32_bytes(v)[3]);
}

/// What was written as 64 bits after `pre` is read back at its end.
pub proof fn lemma_le64_reads_back(s: Seq<u8>, pre: Seq<u8>, v: int)
    requires
        0 <= v <= u64::MAX,
        starts(s, pre + le64_bytes(v)),
    ensures
        pre.len() + 8 <= s.len(),
        le64(s, pre.len() as int) == v,
        starts(s, pre),
{
    broadcast use group_little_endian;

    reveal(le64);
    reveal(le64_bytes);
    let lo = v % 4294967296;
    let hi = v / 4294967296;
    assert(pre + le64_bytes(v) =~= (pre + le32_bytes(lo)) + le32_bytes(hi));
    lemma_le32_reads_back(s, pre + le32_bytes(lo), hi);
    lemma_le32_reads_back(s, pre, lo);
}

/// A list of 32-bit values takes four bytes for each.
pub proof fn lemma_le32_list_len(values: Seq<int>)
    ensures
        le32_list(values).len() == 4 * values.len(),
    decreases values.len(),
{
    broadcast use group_little_endian;

    if values.len() > 0 {
        lemma_le32_list_len(values.drop_last());
    }
}

/// A list of 32-bit values written after `pre` is read back item by item.
pub proof fn lemma_le32_list_reads_back(s: Seq<u8>, pre: Seq<u8>, values: Seq<int>)
    requires
        forall|i: int| 0 <= i < values.len() ==> 0 <= #[trigger] values[i] <= u32::MAX,
        starts(s, pre + le32_list(values)),
    ensures
        pre.len() + 4 * values.len() <= s.len(),
        starts(s, pre),
        forall|i: int|
            0 <= i < values.len() ==> le32(s, pre.len() + 4 * i) == #[trigger] values[i],
    decreases values.len(),
{
    lemma_le32_list_len(values);
    if values.len() == 0 {
        assert(pre + le32_list(values) =~= pre);
    } else {
        let front = values.drop_last();
        lemma_le32_list_len(front);
        assert(pre + le32_list(values) =~= (pre + le32_list(front)) + le32_bytes(values.last()));
        lemma_le32_reads_back(s, pre + le32_list(front), values.last());
        assert forall|i: int| 0 <= i < front.len() implies 0 <= #[trigger] front[i] <= u32::MAX by {
            assert(front[i] == values[i]);
        }
        lemma_le32_list_reads_back(s, pre, front);
        assert forall|i: int| 0 <= i < values.len() implies le32(s, pre.len() + 4 * i)
            == #[trigger] values[i] by {
            if i < front.len() {
                assert(front[i] == values[i]);
            }
        }
    }
}

/// Reads the 16-bit value at `at`.
pub fn u16_at(src: &[u8], at: usize) -> (v: u16)
    requires
        at + 2 <= src@.len(),
    ensures
        v == le16(src@, at as int),
{
    proof {
        reveal(le16);
    }
    src[at] as u16 + 256 * (src[at + 1] as u16)
}

/// Reads the 32-bit value at `at`.
pub fn u32_at(src: &[u8], at: usize) -> (v: u32)
    requires
        at + 4 <= src@.len(),
    ensures
        v == le32(src@, at as int),
{
    proof {
        reveal(le32);
    }
    src[at] as u32 + 256 * (src[at + 1] as u32) + 65536 * (src[at + 2] as u32) + 16777216 * (src[at
        + 3] as u32)
}

/// Reads the 64-bit value at `at`.
pub fn u64_at(src: &[u8], at: usize) -> (v: u64)
    requires
        at + 8 <= src@.len(),
    ensures
        v == le64(src@, at as int),
{
    proof {
        reveal(le64);
    }
    assert(at + 8 <= src.len());
    u32_at(src, at) as u64 + 4294967296 * (u32_at(src, at + 4) as u64)
}

/// The signed reading of a 32-bit pattern.
pub fn to_signed32(v: u32) -> (r: i32)
    ensures
        r == signed32(v as int),
{
    if v < 2147483648 {
        v as i32
    } else {
        (v as i64 - 4294967296) as i32
    }
}

/// The 32-bit pattern of a signed value.
pub fn to_pattern32(v: i32) -> (r: u32)
    ensures
        r == pattern32(v as int),
{
    if v < 0 {
        (v as i64 + 4294967296) as u32
    } else {
        v as u32
    }
}

/// The bytes `from..to` of `src`.
pub fn copy_range(src: &[u8], from: usize, to: usize) -> (out: Vec<u8>)
    requires
        from <= to <= src@.len(),
    ensures
        out@ == src@.subrange(from as int, to as int),
{
    vstd::slice::slice_to_vec(vstd::slice::slice_subrange(src, from, to))
}

/// Appends all of `src`.
pub fn extend(dst: &mut Vec<u8>, src: &[u8])
    ensures
        final(dst)@ == old(dst)@ + src@,
{
    dst.extend_from_slice(src);
    assert(dst@ =~= old(dst)@ + src@);
}

/// A 16-bit value within a prefix is that of the whole.
pub proof fn lemma_le16_of_prefix(s: Seq<u8>, n: int, at: int)
    requires
        0 <= at,
        at + 2 <= n <= s.len(),
    ensures
        le16(s.take(n), at) == le16(s, at),
{
    reveal(le16);
}

/// A 32-bit value within a prefix is that of the whole.
pub proof fn lemma_le32_of_prefix(s: Seq<u8>, n: int, at: int)
    requires
        0 <= at,
        at + 4 <= n <= s.len(),
    ensures
        le32(s.take(n), at) == le32(s, at),
{
    reveal(le32);
}

/// A 64-bit value within a prefix is that of the whole.
pub proof fn lemma_le64_of_prefix(s: Seq<u8>, n: int, at: int)
    requires
        0 <= at,
        at + 8 <= n <= s.len(),
    ensures
        le64(s.take(n), at) == le64(s, at),
{
    reveal(le64);
    lemma_le32_of_prefix(s, n, at);
    lemma_le32_of_prefix(s, n, at + 4);
}

/// Numbers are read low byte first.
pub proof fn numbers_are_read_low_byte_first(s: Seq<u8>, at: int)
    ensures
        le16(s, at) == s[at] + 256 * s[at + 1],
        le32(s, at) == s[at] + 256 * s[at + 1] + 65536 * s[at + 2] + 16777216 * s[at + 3],
        le64(s, at) == s[at] + 256 * s[at + 1] + 65536 * s[at + 2] + 16777216 * s[at + 3]
            + 4294967296 * (s[at + 4] + 256 * s[at + 5] + 65536 * s[at + 6] + 16777216 * s[at + 7]),
{
    reveal(le16);
    reveal(le32);
    reveal(le64);
}

/// Numbers are written low byte first: the bytes add up to the number, each counting for 256 times
/// as much as the one before it.
pub proof fn numbers_are_written_low_byte_first(v: int)
    requires
        0 <= v <= u64::MAX,
    ensures
        v <= u16::MAX ==> v == le16_bytes(v)[0] + 256 * le16_bytes(v)[1],
        v <= u32::MAX ==> v == le32_bytes(v)[0] + 256 * le32_bytes(v)[1] + 65536 * le32_bytes(v)[2]
            + 16777216 * le32_bytes(v)[3],
        ({
            let b = le64_bytes(v);
            v == b[0] + 256 * b[1] + 65536 * b[2] + 16777216 * b[3] + 4294967296 * (b[4] + 256
                * b[5] + 65536 * b[6] + 16777216 * b[7])
        }),
        le16_bytes(v).len() == 2 && le32_bytes(v).len() == 4 && le64_bytes(v).len() == 8,
{
    broadcast use group_little_endian;

    if v <= u16::MAX {
        let b = le16_bytes(v);
        assert(Seq::<u8>::empty() + b =~= b);
        lemma_le16_reads_back(b, Seq::empty(), v);
        numbers_are_read_low_byte_first(b, 0);
    }
    if v <= u32::MAX {
        let b = le32_bytes(v);
        assert(Seq::<u8>::empty() + b =~= b);
        lemma_le32_reads_back(b, Seq::empty(), v);
        numbers_are_read_low_byte_first(b, 0);
    }
    let b = le64_bytes(v);
    assert(Seq::<u8>::empty() + b =~= b);
    lemma_le64_reads_back(b, Seq::empty(), v);
    numbers_are_read_low_byte_first(b, 0);
}

} // verus!
