//! The frame header and the chunking of raw shard streams.
use crate::bytes::{le16, le16_bytes, le32, le32_bytes, le64, le64_bytes, lemma_le16_reads_back,
    lemma_le32_reads_back, lemma_le64_reads_back, u16_at, u32_at, u64_at};
use crate::distributed::protocol::{write_u16_le, write_u32_le, write_u64_le, FrameKind,
    ProtocolError, DISTRIBUTED_PROTOCOL_MAGIC, DISTRIBUTED_PROTOCOL_VERSION};
use crate::text::{decimal, Text};
use vstd::prelude::*;

verus! {

broadcast use crate::bytes::group_little_endian;

/// The number of bytes of a frame header.
pub const HEADER_LEN: usize = 20;

/// The largest piece in which a raw stream is received.
pub const CHUNK: usize = 8388608;

/// The header of a frame.
#[derive(Clone, Copy, Debug, PartialEq, Eq, Structural)]
pub struct FrameHeader {
    pub kind: FrameKind,
    pub request_id: u64,
    pub payload_len: u32,
}

/// Why a frame header is not accepted or cannot be formed.
#[derive(Clone, Copy, Debug, PartialEq, Eq, Structural)]
pub enum HeaderError {
    PayloadTooLarge,
    InvalidMagic(u32),
    UnsupportedVersion(u16),
    Frame(ProtocolError),
}

impl HeaderError {
    /// The message text of the error.
    pub open spec fn text(self) -> Seq<char> {
        match self {
            HeaderError::PayloadTooLarge => "payload too large for distributed frame"@,
            HeaderError::InvalidMagic(magic) =>
                "invalid distributed frame magic: expected 0x444D4F45, got 0x"@ + hex_text(
                magic as int,
                8,
            ),
            HeaderError::UnsupportedVersion(version) =>
                "unsupported distributed protocol version "@ + decimal(version as nat)
                    + ", expected 6"@,
            HeaderError::Frame(error) => error.text(),
        }
    }

    /// The message text of the error.
    pub fn message(self) -> (message: String)
        ensures
            message@ == self.text(),
    {
        match self {
            HeaderError::PayloadTooLarge => Text::start(
                "payload too large for distributed frame",
            ).finish(),
            HeaderError::InvalidMagic(magic) => push_hex(
                Text::start("invalid distributed frame magic: expected 0x444D4F45, got 0x"),
                magic,
                8,
            ).finish(),
            HeaderError::UnsupportedVersion(version) => Text::start(
                "unsupported distributed protocol version ",
            ).number(version as u64).text(", expected 6").finish(),
            HeaderError::Frame(error) => error.message(),
        }
    }
}

/// The text of one upper-case hexadecimal digit.
pub open spec fn hex_digit_text(d: int) -> Seq<char> {
    if d < 10 {
        crate::text::digit_text(d)
    } else if d == 10 {
        "A"@
    } else if d == 11 {
        "B"@
    } else if d == 12 {
        "C"@
    } else if d == 13 {
        "D"@
    } else if d == 14 {
        "E"@
    } else {
        "F"@
    }
}

/// The `width` low hexadecimal digits of `v`.
pub open spec fn hex_text(v: int, width: nat) -> Seq<char>
    decreases width,
{
    if width == 0 {
        Seq::empty()
    } else {
        hex_text(v / 16, (width - 1) as nat) + hex_digit_text(v % 16)
    }
}

fn push_hex(text: Text, v: u32, width: u32) -> (result: Text)
    ensures
        result@ == text@ + hex_text(v as int, width as nat),
    decreases width,
{
    if width == 0 {
        assert(text@ + hex_text(v as int, 0) =~= text@);
        text
    } else {
        let front = push_hex(text, v / 16, width - 1);
        let d: u32 = v % 16;
        let result = if d < 10 {
            front.number(d as u64)
        } else if d == 10 {
            front.text("A")
        } else if d == 11 {
            front.text("B")
        } else if d == 12 {
            front.text("C")
        } else if d == 13 {
            front.text("D")
        } else if d == 14 {
            front.text("E")
        } else {
            front.text("F")
        };
        assert(result@ =~= text@ + hex_text(v as int, width as nat));
        result
    }
}

/// The encoding of a frame header.
pub open spec fn header_bytes(header: FrameHeader) -> Seq<u8> {
    le32_bytes(DISTRIBUTED_PROTOCOL_MAGIC as int) + le16_bytes(DISTRIBUTED_PROTOCOL_VERSION as int)
        + le16_bytes(header.kind.code()) + le64_bytes(header.request_id as int) + le32_bytes(
        header.payload_len as int,
    )
}

/// What a header of 20 bytes announces: the wrong magic is reported first, then the wrong
/// version, then an unknown kind.
pub open spec fn accepts_header(s: Seq<u8>, result: Result<FrameHeader, HeaderError>) -> bool {
    if le32(s, 0) != DISTRIBUTED_PROTOCOL_MAGIC {
        result == Err::<FrameHeader, HeaderError>(HeaderError::InvalidMagic(le32(s, 0) as u32))
    } else if le16(s, 4) != DISTRIBUTED_PROTOCOL_VERSION {
        result == Err::<FrameHeader, HeaderError>(
            HeaderError::UnsupportedVersion(le16(s, 4) as u16),
        )
    } else if !(1 <= le16(s, 6) <= 13) {
        result == Err::<FrameHeader, HeaderError>(
            HeaderError::Frame(ProtocolError::UnknownFrameKind(le16(s, 6) as u16)),
        )
    } else {
        result is Ok && result->Ok_0.kind.code() == le16(s, 6) && result->Ok_0.request_id == le64(
            s,
            8,
        ) && result->Ok_0.payload_len == le32(s, 16)
    }
}

/// Forms the header of a frame with the given payload length.
pub fn encode_frame_header(kind: FrameKind, request_id: u64, payload_len: usize) -> (result: Result<
    Vec<u8>,
    HeaderError,
>)
    ensures
        match result {
            Ok(out) => payload_len <= u32::MAX && out@.len() == HEADER_LEN && out@ == header_bytes(
                FrameHeader { kind, request_id, payload_len: payload_len as u32 },
            ),
            Err(error) => payload_len > u32::MAX && error == HeaderError::PayloadTooLarge,
        },
{
    if payload_len as u64 > u32::MAX as u64 {
        return Err(HeaderError::PayloadTooLarge);
    }
    let mut out: Vec<u8> = Vec::new();
    write_u32_le(&mut out, DISTRIBUTED_PROTOCOL_MAGIC);
    assert(out@ =~= le32_bytes(DISTRIBUTED_PROTOCOL_MAGIC as int));
    write_u16_le(&mut out, DISTRIBUTED_PROTOCOL_VERSION);
    write_u16_le(&mut out, kind.to_u16());
    write_u64_le(&mut out, request_id);
    write_u32_le(&mut out, payload_len as u32);
    Ok(out)
}

/// Reads the header of a frame.
pub fn parse_frame_header(header: &[u8]) -> (result: Result<FrameHeader, HeaderError>)
    requires
        header@.len() == HEADER_LEN,
    ensures
        accepts_header(header@, result),
{
    let magic: u32 = u32_at(header, 0);
    if magic != DISTRIBUTED_PROTOCOL_MAGIC {
        return Err(HeaderError::InvalidMagic(magic));
    }
    let version: u16 = u16_at(header, 4);
    if version != DISTRIBUTED_PROTOCOL_VERSION {
        return Err(HeaderError::UnsupportedVersion(version));
    }
    match FrameKind::from_u16(u16_at(header, 6)) {
        Ok(kind) => Ok(
            FrameHeader { kind, request_id: u64_at(header, 8), payload_len: u32_at(header, 16) },
        ),
        Err(error) => Err(HeaderError::Frame(error)),
    }
}

/// Reading a header that was formed gives its fields back.
pub proof fn frame_header_round_trip(header: FrameHeader, result: Result<FrameHeader, HeaderError>)
    requires
        accepts_header(header_bytes(header), result),
    ensures
        result == Ok::<FrameHeader, HeaderError>(header),
{
    let s = header_bytes(header);
    let b1 = le32_bytes(DISTRIBUTED_PROTOCOL_MAGIC as int);
    let b2 = b1 + le16_bytes(DISTRIBUTED_PROTOCOL_VERSION as int);
    let b3 = b2 + le16_bytes(header.kind.code());
    let b4 = b3 + le64_bytes(header.request_id as int);
    lemma_le32_reads_back(s, b4, header.payload_len as int);
    lemma_le64_reads_back(s, b3, header.request_id as int);
    lemma_le16_reads_back(s, b2, header.kind.code());
    lemma_le16_reads_back(s, b1, DISTRIBUTED_PROTOCOL_VERSION as int);
    assert(Seq::<u8>::empty() + b1 =~= b1);
    lemma_le32_reads_back(s, Seq::empty(), DISTRIBUTED_PROTOCOL_MAGIC as int);
}

/// The total of the lengths of byte ranges.
pub open spec fn total_len(ranges: Seq<(usize, usize)>) -> int
    decreases ranges.len(),
{
    if ranges.len() == 0 {
        0
    } else {
        total_len(ranges.drop_last()) + ranges.last().1
    }
}

proof fn lemma_total_len_grows(ranges: Seq<(usize, usize)>, k: int)
    requires
        0 <= k <= ranges.len(),
    ensures
        0 <= total_len(ranges.take(k)) <= total_len(ranges),
    decreases ranges.len(),
{
    if ranges.len() == 0 {
        assert(ranges.take(k) =~= ranges);
    } else if k == ranges.len() {
        assert(ranges.take(k) =~= ranges);
        lemma_total_len_grows(ranges.drop_last(), k - 1);
    } else {
        assert(ranges.drop_last().take(k) =~= ranges.take(k));
        lemma_total_len_grows(ranges.drop_last(), k);
    }
}

/// The length announced in front of a raw stream made of the given ranges.
pub fn raw_stream_len(ranges: &[(usize, usize)]) -> (total: u64)
    requires
        total_len(ranges@) <= u64::MAX,
    ensures
        total == total_len(ranges@),
{
    let mut total: u64 = 0;
    let mut i: usize = 0;
    while i < ranges.len()
        invariant
            i <= ranges.len(),
            total == total_len(ranges@.take(i as int)),
            total_len(ranges@) <= u64::MAX,
        decreases ranges.len() - i,
    {
        proof {
            assert(ranges@.take(i + 1).drop_last() =~= ranges@.take(i as int));
            lemma_total_len_grows(ranges@, i + 1);
        }
        total = total + ranges[i].1 as u64;
        i = i + 1;
    }
    assert(ranges@.take(i as int) =~= ranges@);
    total
}

/// The size of the next piece of a raw stream.
pub fn next_chunk(remaining: usize) -> (size: usize)
    ensures
        size == if remaining < CHUNK {
            remaining
        } else {
            CHUNK
        },
        remaining > 0 ==> 0 < size <= remaining,
{
    if remaining < CHUNK {
        remaining
    } else {
        CHUNK
    }
}

/// A frame header opens with the mark of the protocol and its version; the kind, the number of the
/// request and the length of the payload follow.
pub proof fn frame_headers_are_laid_out_in_order(header: FrameHeader)
    ensures
        ({
            let s = header_bytes(header);
            &&& s.len() == 20
            &&& le32(s, 0) == 0x444D4F45
            &&& le16(s, 4) == 6
            &&& le16(s, 6) == header.kind.code()
            &&& le64(s, 8) == header.request_id
            &&& le32(s, 16) == header.payload_len
        }),
{
    let s = header_bytes(header);
    let b1 = le32_bytes(DISTRIBUTED_PROTOCOL_MAGIC as int);
    let b2 = b1 + le16_bytes(DISTRIBUTED_PROTOCOL_VERSION as int);
    let b3 = b2 + le16_bytes(header.kind.code());
    let b4 = b3 + le64_bytes(header.request_id as int);
    lemma_le32_reads_back(s, b4, header.payload_len as int);
    lemma_le64_reads_back(s, b3, header.request_id as int);
    lemma_le16_reads_back(s, b2, header.kind.code());
    lemma_le16_reads_back(s, b1, DISTRIBUTED_PROTOCOL_VERSION as int);
    assert(Seq::<u8>::empty() + b1 =~= b1);
    lemma_le32_reads_back(s, Seq::empty(), DISTRIBUTED_PROTOCOL_MAGIC as int);
}

/// A header is accepted exactly where it opens with the mark of the protocol, its version and a
/// known kind; what it announces is read from behind them.
pub proof fn headers_are_accepted_by_mark_version_and_kind(
    s: Seq<u8>,
    result: Result<FrameHeader, HeaderError>,
)
    requires
        s.len() == 20,
        accepts_header(s, result),
    ensures
        result is Ok <==> le32(s, 0) == 0x444D4F45 && le16(s, 4) == 6 && 1 <= le16(s, 6) <= 13,
        result matches Ok(header) ==> header.kind.code() == le16(s, 6) && header.request_id == le64(
            s,
            8,
        ) && header.payload_len == le32(s, 16),
{
}

/// The announced length of a raw stream is the sum of the lengths of its ranges.
pub proof fn stream_lengths_add_up(
    a: Seq<(usize, usize)>,
    b: Seq<(usize, usize)>,
    range: (usize, usize),
)
    ensures
        total_len(a + b) == total_len(a) + total_len(b),
        total_len(seq![range]) == range.1,
        total_len(Seq::empty()) == 0,
    decreases b.len(),
{
    assert(seq![range].drop_last() =~= Seq::empty());
    assert(total_len(seq![range].drop_last()) == 0);
    if b.len() == 0 {
        assert(a + b =~= a);
    } else {
        assert((a + b).drop_last() =~= a + b.drop_last());
        stream_lengths_add_up(a, b.drop_last(), range);
    }
}

} // verus!
