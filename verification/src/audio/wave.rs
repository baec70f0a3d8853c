//! RIFF/WAVE files: their format and where their samples are.
use super::config::AudioDecodeConfig;
use crate::bytes::{le16, le32, u16_at, u32_at};
use crate::text::{decimal, Text};
use vstd::prelude::*;
use vstd::slice::slice_subrange;

verus! {

broadcast use crate::bytes::group_little_endian;

pub const WAVE_FORMAT_PCM: u16 = 1;

pub const WAVE_FORMAT_IEEE_FLOAT: u16 = 3;

pub const WAVE_FORMAT_EXTENSIBLE: u16 = 0xfffe;

/// The end of the identifiers of the sub-formats that an extensible format can hold.
pub open spec fn guid_tail() -> Seq<u8> {
    seq![0, 0, 0, 0, 0x10, 0, 0x80, 0, 0, 0xaa, 0, 0x38, 0x9b, 0x71]
}

/// How samples are stored.
#[derive(Clone, Copy, Debug, PartialEq, Eq, Structural)]
pub enum PcmSampleFormat {
    Integer,
    Float,
}

/// The format of a file.
#[derive(Clone, Copy, Debug, PartialEq, Eq, Structural)]
pub struct PcmWaveFormat {
    pub channels: u16,
    pub sample_rate: u32,
    pub block_align: u16,
    pub bits_per_sample: u16,
    pub sample_format: PcmSampleFormat,
}

impl PcmWaveFormat {
    /// The bit depth suits the way samples are stored, and a frame holds one sample of each
    /// channel.
    pub open spec fn wf(self) -> bool {
        &&& self.channels > 0
        &&& self.sample_rate > 0
        &&& depth_ok(self.sample_format, self.bits_per_sample)
        &&& self.block_align == self.channels * (self.bits_per_sample as int / 8)
    }
}

/// Whether samples of a bit depth are supported.
pub open spec fn depth_ok(format: PcmSampleFormat, bits: u16) -> bool {
    match format {
        PcmSampleFormat::Integer => bits == 8 || bits == 16 || bits == 24 || bits == 32,
        PcmSampleFormat::Float => bits == 32 || bits == 64,
    }
}

/// Why a file is not accepted.
#[derive(Clone, Copy, Debug, PartialEq, Eq, Structural)]
pub enum WaveError {
    ExtensibleLen(usize),
    ExtensionSize(u16),
    Packing { valid: u16, container: u16 },
    Guid,
    SubFormat(u16),
    FormatLen,
    Encoding(u16),
    Channels { got: u16, limit: u16 },
    SampleRate { rate: u32, rate_limit: u32 },
    IntegerDepth(u16),
    FloatDepth(u16),
    AlignmentOverflow,
    Alignment { got: u16, limit: u16 },
    ByteRateOverflow,
    ByteRate { rate: u32, rate_limit: u32 },
    Container,
    PaddingOverflow,
    NoFormat,
    NoData,
    Misaligned,
    Empty,
}

impl WaveError {
    /// The message text of the error.
    pub open spec fn text(self) -> Seq<char> {
        match self {
            WaveError::ExtensibleLen(got) =>
                "invalid WAVE_FORMAT_EXTENSIBLE fmt chunk: expected at least 40 bytes, found "@
                    + decimal(got as nat),
            WaveError::ExtensionSize(got) =>
                "invalid WAVE_FORMAT_EXTENSIBLE fmt extension size "@ + decimal(got as nat)
                    + "; expected at least 22"@,
            WaveError::Packing { valid, container } =>
                "unsupported WAVE_FORMAT_EXTENSIBLE sample packing: "@ + decimal(valid as nat)
                    + " valid bits in a "@ + decimal(container as nat) + "-bit container"@,
            WaveError::Guid =>
                "unsupported WAVE_FORMAT_EXTENSIBLE sub-format GUID; expected PCM or IEEE float"@,
            WaveError::SubFormat(got) => "unsupported WAVE_FORMAT_EXTENSIBLE sub-format "@
                + decimal(got as nat) + "; expected PCM (1) or IEEE float (3)"@,
            WaveError::FormatLen => "invalid WAV fmt chunk: expected at least 16 bytes"@,
            WaveError::Encoding(got) => "unsupported WAV encoding "@ + decimal(got as nat)
                + "; supported encodings are integer PCM (1), IEEE float (3), and extensible (65534) wrapping either; convert it first, for example `ffmpeg -i input -ar 16000 -ac 1 -c:a pcm_s16le output.wav`"@,
            WaveError::Channels { got, limit } => "unsupported WAV channel count "@ + decimal(
                got as nat,
            ) + "; expected 1..="@ + decimal(limit as nat),
            WaveError::SampleRate { rate, rate_limit } => "unsupported WAV sample rate "@
                + decimal(rate as nat) + "; expected 1..="@ + decimal(rate_limit as nat),
            WaveError::IntegerDepth(got) => "unsupported integer PCM WAV bit depth "@ + decimal(
                got as nat,
            ) + "; expected 8, 16, 24, or 32"@,
            WaveError::FloatDepth(got) => "unsupported IEEE float WAV bit depth "@ + decimal(
                got as nat,
            ) + "; expected 32 or 64"@,
            WaveError::AlignmentOverflow => "WAV block alignment overflow"@,
            WaveError::Alignment { got, limit } => "invalid PCM WAV block alignment "@ + decimal(
                got as nat,
            ) + "; expected "@ + decimal(limit as nat),
            WaveError::ByteRateOverflow => "WAV byte rate overflow"@,
            WaveError::ByteRate { rate, rate_limit } => "invalid PCM WAV byte rate "@ + decimal(
                rate as nat,
            ) + "; expected "@ + decimal(rate_limit as nat),
            WaveError::Container =>
                "unsupported audio container; expected little-endian RIFF/WAVE; convert it first, for example `ffmpeg -i input -ar 16000 -ac 1 -c:a pcm_s16le output.wav`"@,
            WaveError::PaddingOverflow => "WAV chunk padding overflow"@,
            WaveError::NoFormat => "WAV is missing a fmt chunk"@,
            WaveError::NoData => "WAV is missing a data chunk"@,
            WaveError::Misaligned =>
                "PCM WAV data length is not aligned to complete sample frames"@,
            WaveError::Empty => "WAV data chunk is empty"@,
        }
    }

    /// The message text of the error.
    pub fn message(self) -> (message: String)
        ensures
            message@ == self.text(),
    {
        match self {
            WaveError::ExtensibleLen(got) => Text::start(
                "invalid WAVE_FORMAT_EXTENSIBLE fmt chunk: expected at least 40 bytes, found ",
            ).size(got).finish(),
            WaveError::ExtensionSize(got) => Text::start(
                "invalid WAVE_FORMAT_EXTENSIBLE fmt extension size ",
            ).number(got as u64).text("; expected at least 22").finish(),
            WaveError::Packing { valid, container } => Text::start(
                "unsupported WAVE_FORMAT_EXTENSIBLE sample packing: ",
            ).number(valid as u64).text(" valid bits in a ").number(container as u64).text(
                "-bit container",
            ).finish(),
            WaveError::Guid => Text::start(
                "unsupported WAVE_FORMAT_EXTENSIBLE sub-format GUID; expected PCM or IEEE float",
            ).finish(),
            WaveError::SubFormat(got) => Text::start(
                "unsupported WAVE_FORMAT_EXTENSIBLE sub-format ",
            ).number(got as u64).text("; expected PCM (1) or IEEE float (3)").finish(),
            WaveError::FormatLen => Text::start(
                "invalid WAV fmt chunk: expected at least 16 bytes",
            ).finish(),
            WaveError::Encoding(got) => Text::start("unsupported WAV encoding ").number(
                got as u64,
            ).text(
                "; supported encodings are integer PCM (1), IEEE float (3), and extensible (65534) wrapping either; convert it first, for example `ffmpeg -i input -ar 16000 -ac 1 -c:a pcm_s16le output.wav`",
            ).finish(),
            WaveError::Channels { got, limit } => Text::start(
                "unsupported WAV channel count ",
            ).number(got as u64).text("; expected 1..=").number(limit as u64).finish(),
            WaveError::SampleRate { rate, rate_limit } => Text::start(
                "unsupported WAV sample rate ",
            ).number(rate as u64).text("; expected 1..=").number(rate_limit as u64).finish(),
            WaveError::IntegerDepth(got) => Text::start(
                "unsupported integer PCM WAV bit depth ",
            ).number(got as u64).text("; expected 8, 16, 24, or 32").finish(),
            WaveError::FloatDepth(got) => Text::start(
                "unsupported IEEE float WAV bit depth ",
            ).number(got as u64).text("; expected 32 or 64").finish(),
            WaveError::AlignmentOverflow => Text::start("WAV block alignment overflow").finish(),
            WaveError::Alignment { got, limit } => Text::start(
                "invalid PCM WAV block alignment ",
            ).number(got as u64).text("; expected ").number(limit as u64).finish(),
            WaveError::ByteRateOverflow => Text::start("WAV byte rate overflow").finish(),
            WaveError::ByteRate { rate, rate_limit } => Text::start(
                "invalid PCM WAV byte rate ",
            ).number(rate as u64).text("; expected ").number(rate_limit as u64).finish(),
            WaveError::Container => Text::start(
                "unsupported audio container; expected little-endian RIFF/WAVE; convert it first, for example `ffmpeg -i input -ar 16000 -ac 1 -c:a pcm_s16le output.wav`",
            ).finish(),
            WaveError::PaddingOverflow => Text::start("WAV chunk padding overflow").finish(),
            WaveError::NoFormat => Text::start("WAV is missing a fmt chunk").finish(),
            WaveError::NoData => Text::start("WAV is missing a data chunk").finish(),
            WaveError::Misaligned => Text::start(
                "PCM WAV data length is not aligned to complete sample frames",
            ).finish(),
            WaveError::Empty => Text::start("WAV data chunk is empty").finish(),
        }
    }
}

/// The text of a field that the file ends before.
pub open spec fn truncated_text(field: Seq<char>) -> Seq<char> {
    "truncated WAV "@ + field
}

/// Reads a 16-bit field, or gives the text of the truncation.
pub fn read_u16_le(bytes: &[u8], offset: usize, field: &str) -> (result: Result<u16, String>)
    ensures
        match result {
            Ok(v) => offset + 2 <= bytes@.len() && v == le16(bytes@, offset as int),
            Err(text) => offset + 2 > bytes@.len() && text@ == truncated_text(field@),
        },
{
    if bytes.len() < 2 || offset > bytes.len() - 2 {
        return Err(Text::start("truncated WAV ").text(field).finish());
    }
    Ok(u16_at(bytes, offset))
}

/// Reads a 32-bit field, or gives the text of the truncation.
pub fn read_u32_le(bytes: &[u8], offset: usize, field: &str) -> (result: Result<u32, String>)
    ensures
        match result {
            Ok(v) => offset + 4 <= bytes@.len() && v == le32(bytes@, offset as int),
            Err(text) => offset + 4 > bytes@.len() && text@ == truncated_text(field@),
        },
{
    if bytes.len() < 4 || offset > bytes.len() - 4 {
        return Err(Text::start("truncated WAV ").text(field).finish());
    }
    Ok(u32_at(bytes, offset))
}

/// How samples of an extensible format are stored.
pub open spec fn extensible_outcome(bytes: Seq<u8>) -> Result<PcmSampleFormat, WaveError> {
    let bits = le16(bytes, 14) as u16;
    let valid = le16(bytes, 18) as u16;
    let sub_format = le16(bytes, 24) as u16;
    if bytes.len() < 40 {
        Err(WaveError::ExtensibleLen(bytes.len() as usize))
    } else if le16(bytes, 16) < 22 {
        Err(WaveError::ExtensionSize(le16(bytes, 16) as u16))
    } else if valid != 0 && valid != bits {
        Err(WaveError::Packing { valid, container: bits })
    } else if bytes.subrange(26, 40) != guid_tail() {
        Err(WaveError::Guid)
    } else if sub_format == WAVE_FORMAT_PCM {
        Ok(PcmSampleFormat::Integer)
    } else if sub_format == WAVE_FORMAT_IEEE_FLOAT {
        Ok(PcmSampleFormat::Float)
    } else {
        Err(WaveError::SubFormat(sub_format))
    }
}

/// Reads how samples of an extensible format are stored.
pub fn parse_extensible_sample_format(bytes: &[u8]) -> (result: Result<PcmSampleFormat, WaveError>)
    ensures
        result == extensible_outcome(bytes@),
{
    if bytes.len() < 40 {
        return Err(WaveError::ExtensibleLen(bytes.len()));
    }
    let extension_size: u16 = u16_at(bytes, 16);
    if extension_size < 22 {
        return Err(WaveError::ExtensionSize(extension_size));
    }
    let bits: u16 = u16_at(bytes, 14);
    let valid: u16 = u16_at(bytes, 18);
    if valid != 0 && valid != bits {
        return Err(WaveError::Packing { valid, container: bits });
    }
    let tail: [u8; 14] = [0, 0, 0, 0, 0x10, 0, 0x80, 0, 0, 0xaa, 0, 0x38, 0x9b, 0x71];
    let ghost found = bytes@.subrange(26, 40);
    assert(tail@ =~= guid_tail());
    let mut i: usize = 0;
    while i < 14
        invariant
            i <= 14,
            bytes@.len() >= 40,
            found == bytes@.subrange(26, 40),
            tail@ == guid_tail(),
            bytes@.len() >= 40,
            le16(bytes@, 16) >= 22,
            bits == le16(bytes@, 14),
            valid == le16(bytes@, 18),
            valid == 0 || valid == bits,
            forall|j: int| 0 <= j < i ==> #[trigger] found[j] == tail@[j],
        decreases 14 - i,
    {
        if bytes[26 + i] != tail[i] {
            assert(found[i as int] != guid_tail()[i as int]);
            return Err(WaveError::Guid);
        }
        assert(found[i as int] == tail@[i as int]);
        i = i + 1;
    }
    assert(found =~= guid_tail());
    let sub_format: u16 = u16_at(bytes, 24);
    if sub_format == WAVE_FORMAT_PCM {
        Ok(PcmSampleFormat::Integer)
    } else if sub_format == WAVE_FORMAT_IEEE_FLOAT {
        Ok(PcmSampleFormat::Float)
    } else {
        Err(WaveError::SubFormat(sub_format))
    }
}

/// How samples of an encoding are stored.
pub open spec fn encoding_outcome(bytes: Seq<u8>) -> Result<PcmSampleFormat, WaveError> {
    let encoding = le16(bytes, 0) as u16;
    if encoding == WAVE_FORMAT_PCM {
        Ok(PcmSampleFormat::Integer)
    } else if encoding == WAVE_FORMAT_IEEE_FLOAT {
        Ok(PcmSampleFormat::Float)
    } else if encoding == WAVE_FORMAT_EXTENSIBLE {
        extensible_outcome(bytes)
    } else {
        Err(WaveError::Encoding(encoding))
    }
}

/// The format of a file, from its format chunk.
pub open spec fn format_outcome(bytes: Seq<u8>, config: AudioDecodeConfig) -> Result<
    PcmWaveFormat,
    WaveError,
> {
    let channels = le16(bytes, 2) as u16;
    let sample_rate = le32(bytes, 4) as u32;
    let byte_rate = le32(bytes, 8) as u32;
    let block_align = le16(bytes, 12) as u16;
    let bits_per_sample = le16(bytes, 14) as u16;
    let align = channels * (bits_per_sample as int / 8);
    if bytes.len() < 16 {
        Err(WaveError::FormatLen)
    } else {
        match encoding_outcome(bytes) {
            Err(error) => Err(error),
            Ok(sample_format) => if channels == 0 || channels > config.max_channels {
                Err(WaveError::Channels { got: channels, limit: config.max_channels })
            } else if sample_rate == 0 || sample_rate > config.max_source_sample_rate {
                Err(
                    WaveError::SampleRate {
                        rate: sample_rate,
                        rate_limit: config.max_source_sample_rate,
                    },
                )
            } else if !depth_ok(sample_format, bits_per_sample) {
                match sample_format {
                    PcmSampleFormat::Integer => Err(WaveError::IntegerDepth(bits_per_sample)),
                    PcmSampleFormat::Float => Err(WaveError::FloatDepth(bits_per_sample)),
                }
            } else if align > u16::MAX {
                Err(WaveError::AlignmentOverflow)
            } else if block_align != align {
                Err(WaveError::Alignment { got: block_align, limit: align as u16 })
            } else if sample_rate * block_align > u32::MAX {
                Err(WaveError::ByteRateOverflow)
            } else if byte_rate != sample_rate * block_align {
                Err(
                    WaveError::ByteRate {
                        rate: byte_rate,
                        rate_limit: (sample_rate * block_align) as u32,
                    },
                )
            } else {
                Ok(
                    PcmWaveFormat {
                        channels,
                        sample_rate,
                        block_align,
                        bits_per_sample,
                        sample_format,
                    },
                )
            },
        }
    }
}

fn parse_encoding(bytes: &[u8]) -> (result: Result<PcmSampleFormat, WaveError>)
    requires
        bytes@.len() >= 16,
    ensures
        result == encoding_outcome(bytes@),
{
    let encoding: u16 = u16_at(bytes, 0);
    if encoding == WAVE_FORMAT_PCM {
        Ok(PcmSampleFormat::Integer)
    } else if encoding == WAVE_FORMAT_IEEE_FLOAT {
        Ok(PcmSampleFormat::Float)
    } else if encoding == WAVE_FORMAT_EXTENSIBLE {
        parse_extensible_sample_format(bytes)
    } else {
        Err(WaveError::Encoding(encoding))
    }
}

/// Reads the format of a file from its format chunk.
pub fn parse_pcm_format(bytes: &[u8], config: AudioDecodeConfig) -> (result: Result<
    PcmWaveFormat,
    WaveError,
>)
    ensures
        result == format_outcome(bytes@, config),
        result matches Ok(format) ==> format.wf(),
{
    if bytes.len() < 16 {
        return Err(WaveError::FormatLen);
    }
    let sample_format = match parse_encoding(bytes) {
        Ok(format) => format,
        Err(error) => return Err(error),
    };
    let channels: u16 = u16_at(bytes, 2);
    if channels == 0 || channels > config.max_channels {
        return Err(WaveError::Channels { got: channels, limit: config.max_channels });
    }
    let sample_rate: u32 = u32_at(bytes, 4);
    if sample_rate == 0 || sample_rate > config.max_source_sample_rate {
        return Err(
            WaveError::SampleRate {
                rate: sample_rate,
                rate_limit: config.max_source_sample_rate,
            },
        );
    }
    let block_align: u16 = u16_at(bytes, 12);
    let bits_per_sample: u16 = u16_at(bytes, 14);
    match sample_format {
        PcmSampleFormat::Integer => if bits_per_sample != 8 && bits_per_sample != 16
            && bits_per_sample != 24 && bits_per_sample != 32 {
            return Err(WaveError::IntegerDepth(bits_per_sample));
        },
        PcmSampleFormat::Float => if bits_per_sample != 32 && bits_per_sample != 64 {
            return Err(WaveError::FloatDepth(bits_per_sample));
        },
    }
    let expected_align: u16 = match channels.checked_mul(bits_per_sample / 8) {
        Some(align) => align,
        None => return Err(WaveError::AlignmentOverflow),
    };
    if block_align != expected_align {
        return Err(WaveError::Alignment { got: block_align, limit: expected_align });
    }
    let byte_rate: u32 = u32_at(bytes, 8);
    let expected_rate: u32 = match sample_rate.checked_mul(block_align as u32) {
        Some(rate) => rate,
        None => return Err(WaveError::ByteRateOverflow),
    };
    if byte_rate != expected_rate {
        return Err(WaveError::ByteRate { rate: byte_rate, rate_limit: expected_rate });
    }
    Ok(PcmWaveFormat { channels, sample_rate, block_align, bits_per_sample, sample_format })
}

/// What was found among the chunks of a file: its format, where its data is, and whether the data
/// was declared longer than the file.
#[derive(Clone, Copy, Debug, PartialEq, Eq, Structural)]
pub struct Found {
    pub has_format: bool,
    pub format: PcmWaveFormat,
    pub has_data: bool,
    pub data_start: usize,
    pub data_end: usize,
    pub cut_short: bool,
}

/// Whether a chunk has the given name.
pub open spec fn named(bytes: Seq<u8>, at: int, name: Seq<u8>) -> bool {
    bytes.subrange(at, at + 4) == name
}

/// The name of format chunks.
pub open spec fn fmt_name() -> Seq<u8> {
    seq![0x66, 0x6d, 0x74, 0x20]
}

/// The name of data chunks.
pub open spec fn data_name() -> Seq<u8> {
    seq![0x64, 0x61, 0x74, 0x61]
}

/// The size of the chunk at a place, as far as the file goes.
pub open spec fn present_size(bytes: Seq<u8>, end: int, cursor: int) -> int {
    let declared = le32(bytes, cursor + 4);
    if declared < end - (cursor + 8) {
        declared
    } else {
        end - (cursor + 8)
    }
}

/// What is found with the chunk at a place.
pub open spec fn with_chunk(
    bytes: Seq<u8>,
    end: int,
    config: AudioDecodeConfig,
    cursor: int,
    found: Found,
) -> Result<Found, WaveError> {
    let start = cursor + 8;
    let size = present_size(bytes, end, cursor);
    if named(bytes, cursor, fmt_name()) && !found.has_format {
        match format_outcome(bytes.subrange(start, start + size), config) {
            Err(error) => Err(error),
            Ok(format) => Ok(Found { has_format: true, format, ..found }),
        }
    } else if named(bytes, cursor, data_name()) && !found.has_data {
        Ok(
            Found {
                has_data: true,
                data_start: start as usize,
                data_end: (start + size) as usize,
                cut_short: size < le32(bytes, cursor + 4),
                ..found
            },
        )
    } else {
        Ok(found)
    }
}

/// What is found among the chunks from a place on. A chunk that is declared longer than the file
/// is the last one; chunks are padded to an even length.
pub open spec fn scan(
    bytes: Seq<u8>,
    end: int,
    config: AudioDecodeConfig,
    cursor: int,
    found: Found,
) -> Result<Found, WaveError>
    decreases end + 1 - cursor,
{
    if cursor + 8 > end {
        Ok(found)
    } else {
        let size = present_size(bytes, end, cursor);
        match with_chunk(bytes, end, config, cursor, found) {
            Err(error) => Err(error),
            Ok(now) => if size < le32(bytes, cursor + 4) || size < 0 {
                Ok(now)
            } else if cursor + 8 + size + size % 2 > usize::MAX {
                Err(WaveError::PaddingOverflow)
            } else {
                scan(bytes, end, config, cursor + 8 + size + size % 2, now)
            },
        }
    }
}

/// Nothing found yet.
pub open spec fn nothing() -> Found {
    Found {
        has_format: false,
        format: PcmWaveFormat {
            channels: 0,
            sample_rate: 0,
            block_align: 0,
            bits_per_sample: 0,
            sample_format: PcmSampleFormat::Integer,
        },
        has_data: false,
        data_start: 0,
        data_end: 0,
        cut_short: false,
    }
}

/// Where the chunks of a file end: at the declared end, or at the end of the file.
pub open spec fn chunks_end(bytes: Seq<u8>) -> int {
    let declared = le32(bytes, 4) + 8;
    if declared < bytes.len() {
        declared
    } else {
        bytes.len() as int
    }
}

/// Whether a file is a RIFF/WAVE file.
pub open spec fn is_wave(bytes: Seq<u8>) -> bool {
    bytes.len() >= 12 && bytes.subrange(0, 4) == seq![0x52u8, 0x49, 0x46, 0x46] && bytes.subrange(
        8,
        12,
    ) == seq![0x57u8, 0x41, 0x56, 0x45]
}

/// The format of a file and where its samples are: whole frames only. Data that was declared
/// longer than the file is cut to whole frames; other data must consist of them.
pub open spec fn wave_outcome(bytes: Seq<u8>, config: AudioDecodeConfig) -> Result<
    (PcmWaveFormat, usize, usize),
    WaveError,
> {
    if !is_wave(bytes) {
        Err(WaveError::Container)
    } else {
        match scan(bytes, chunks_end(bytes), config, 12, nothing()) {
            Err(error) => Err(error),
            Ok(found) => {
                let len = found.data_end - found.data_start;
                let frame = found.format.block_align as int;
                if !found.has_format {
                    Err(WaveError::NoFormat)
                } else if !found.has_data {
                    Err(WaveError::NoData)
                } else if !found.cut_short && len % frame != 0 {
                    Err(WaveError::Misaligned)
                } else if len - len % frame == 0 {
                    Err(WaveError::Empty)
                } else {
                    Ok(
                        (
                            found.format,
                            found.data_start,
                            (found.data_end - len % frame) as usize,
                        ),
                    )
                }
            },
        }
    }
}

fn is_named(bytes: &[u8], at: usize, a: u8, b: u8, c: u8, d: u8) -> (same: bool)
    requires
        at + 4 <= bytes@.len(),
    ensures
        same == named(bytes@, at as int, seq![a, b, c, d]),
{
    let ghost found = bytes@.subrange(at as int, at + 4);
    let same = bytes[at] == a && bytes[at + 1] == b && bytes[at + 2] == c && bytes[at + 3] == d;
    proof {
        assert(found.len() == 4);
        if same {
            assert(found =~= seq![a, b, c, d]);
        } else {
            let wanted = seq![a, b, c, d];
            assert(found[0] == bytes@[at as int] && found[1] == bytes@[at + 1] && found[2]
                == bytes@[at + 2] && found[3] == bytes@[at + 3]);
            assert(wanted[0] == a && wanted[1] == b && wanted[2] == c && wanted[3] == d);
        }
    }
    same
}

/// Finds the format of a file and where its samples are.
pub fn parse_wave_chunks(bytes: &[u8], config: AudioDecodeConfig) -> (result: Result<
    (PcmWaveFormat, usize, usize),
    WaveError,
>)
    ensures
        result == wave_outcome(bytes@, config),
        result matches Ok((format, start, end)) ==> format.wf() && start < end <= bytes@.len() && (
        end - start) % format.block_align as int == 0,
{
    if bytes.len() < 12 || !is_named(bytes, 0, 0x52, 0x49, 0x46, 0x46) || !is_named(
        bytes,
        8,
        0x57,
        0x41,
        0x56,
        0x45,
    ) {
        return Err(WaveError::Container);
    }
    let declared_size: usize = u32_at(bytes, 4) as usize;
    let end: usize = if bytes.len() < 8 || declared_size >= bytes.len() - 8 {
        bytes.len()
    } else {
        declared_size + 8
    };
    assert(end == chunks_end(bytes@));
    let mut found = Found {
        has_format: false,
        format: PcmWaveFormat {
            channels: 0,
            sample_rate: 0,
            block_align: 0,
            bits_per_sample: 0,
            sample_format: PcmSampleFormat::Integer,
        },
        has_data: false,
        data_start: 0,
        data_end: 0,
        cut_short: false,
    };
    let mut cursor: usize = 12;
    while cursor <= end && end - cursor >= 8
        invariant_except_break
            bytes@.len() <= usize::MAX,
            end <= bytes@.len(),
            12 <= cursor,
            cursor <= end + 1 || cursor == 12,
            scan(bytes@, end as int, config, 12, nothing()) == scan(
                bytes@,
                end as int,
                config,
                cursor as int,
                found,
            ),
            found.has_format ==> found.format.wf(),
            found.data_start <= found.data_end <= end,
            is_wave(bytes@),
            end == chunks_end(bytes@),
        ensures
            scan(bytes@, end as int, config, 12, nothing()) == Ok::<Found, WaveError>(found),
            found.has_format ==> found.format.wf(),
            found.data_start <= found.data_end <= end,
            end <= bytes@.len(),
        decreases end + 1 - cursor,
    {
        let declared: usize = u32_at(bytes, cursor + 4) as usize;
        let start: usize = cursor + 8;
        let available: usize = end - start;
        let size: usize = if declared < available {
            declared
        } else {
            available
        };
        assert(size == present_size(bytes@, end as int, cursor as int));
        if is_named(bytes, cursor, 0x66, 0x6d, 0x74, 0x20) && !found.has_format {
            match parse_pcm_format(slice_subrange(bytes, start, start + size), config) {
                Ok(format) => {
                    found.has_format = true;
                    found.format = format;
                },
                Err(error) => return Err(error),
            }
        } else if is_named(bytes, cursor, 0x64, 0x61, 0x74, 0x61) && !found.has_data {
            found.has_data = true;
            found.data_start = start;
            found.data_end = start + size;
            found.cut_short = size < declared;
        }
        if size < declared {
            break;
        }
        cursor =
        match (start + size).checked_add(size % 2) {
            Some(next) => next,
            None => return Err(WaveError::PaddingOverflow),
        };
    }
    if !found.has_format {
        return Err(WaveError::NoFormat);
    }
    if !found.has_data {
        return Err(WaveError::NoData);
    }
    let frame: usize = found.format.block_align as usize;
    proof {
        assert(found.format.block_align > 0) by (nonlinear_arith)
            requires
                found.format.block_align == found.format.channels * (
                found.format.bits_per_sample as int / 8),
                found.format.channels > 0,
                found.format.bits_per_sample as int / 8 > 0,
        ;
    }
    let len: usize = found.data_end - found.data_start;
    let rest: usize = len % frame;
    proof {
        vstd::arithmetic::div_mod::lemma_mod_decreases(len as nat, frame as nat);
    }
    if !found.cut_short && rest != 0 {
        return Err(WaveError::Misaligned);
    }
    if len - rest == 0 {
        return Err(WaveError::Empty);
    }
    proof {
        vstd::arithmetic::div_mod::lemma_fundamental_div_mod(len as int, frame as int);
        let q = len as int / frame as int;
        vstd::arithmetic::div_mod::lemma_mod_multiples_basic(q, frame as int);
        assert(frame * q == q * frame) by (nonlinear_arith);
        assert(found.data_end - rest - found.data_start == q * frame);
    }
    Ok((found.format, found.data_start, found.data_end - rest))
}

/// A chunk that fits the file is followed by the next one, behind a byte of padding where its size
/// is odd. A chunk that is neither the first format nor the first data changes nothing; data is
/// found where its chunk says, and a format is read from the bytes of its chunk.
pub proof fn chunks_follow_each_other(
    bytes: Seq<u8>,
    end: int,
    config: AudioDecodeConfig,
    cursor: int,
    found: Found,
)
    requires
        0 <= cursor,
        cursor + 8 <= end <= bytes.len() < usize::MAX,
        cursor + 8 + le32(bytes, cursor + 4) <= end,
    ensures
        ({
            let size = le32(bytes, cursor + 4);
            let next = cursor + 8 + size + size % 2;
            let is_format = bytes[cursor] == 0x66 && bytes[cursor + 1] == 0x6d && bytes[cursor + 2]
                == 0x74 && bytes[cursor + 3] == 0x20;
            let is_data = bytes[cursor] == 0x64 && bytes[cursor + 1] == 0x61 && bytes[cursor + 2]
                == 0x74 && bytes[cursor + 3] == 0x61;
            &&& (!is_format || found.has_format) && (!is_data || found.has_data) ==> scan(
                bytes,
                end,
                config,
                cursor,
                found,
            ) == scan(bytes, end, config, next, found)
            &&& is_data && !found.has_data ==> scan(bytes, end, config, cursor, found) == scan(
                bytes,
                end,
                config,
                next,
                Found {
                    has_data: true,
                    data_start: (cursor + 8) as usize,
                    data_end: (cursor + 8 + size) as usize,
                    cut_short: false,
                    ..found
                },
            )
            &&& is_format && !found.has_format ==> match format_outcome(
                bytes.subrange(cursor + 8, cursor + 8 + size),
                config,
            ) {
                Ok(format) => scan(bytes, end, config, cursor, found) == scan(
                    bytes,
                    end,
                    config,
                    next,
                    Found { has_format: true, format, ..found },
                ),
                Err(error) => scan(bytes, end, config, cursor, found) == Err::<Found, WaveError>(
                    error,
                ),
            }
        }),
{
    let name = bytes.subrange(cursor, cursor + 4);
    let size = le32(bytes, cursor + 4);
    assert(present_size(bytes, end, cursor) == size);
    let is_format = bytes[cursor] == 0x66 && bytes[cursor + 1] == 0x6d && bytes[cursor + 2] == 0x74
        && bytes[cursor + 3] == 0x20;
    let is_data = bytes[cursor] == 0x64 && bytes[cursor + 1] == 0x61 && bytes[cursor + 2] == 0x74
        && bytes[cursor + 3] == 0x61;
    assert(name[0] == bytes[cursor] && name[1] == bytes[cursor + 1] && name[2] == bytes[cursor + 2]
        && name[3] == bytes[cursor + 3]);
    assert(named(bytes, cursor, fmt_name()) <==> is_format) by {
        if is_format {
            assert(name =~= fmt_name());
        }
        let wanted = fmt_name();
        assert(wanted[0] == 0x66 && wanted[1] == 0x6d && wanted[2] == 0x74 && wanted[3] == 0x20);
    }
    assert(named(bytes, cursor, data_name()) <==> is_data) by {
        if is_data {
            assert(name =~= data_name());
        }
        let wanted = data_name();
        assert(wanted[0] == 0x64 && wanted[1] == 0x61 && wanted[2] == 0x74 && wanted[3] == 0x61);
    }
    assert(cursor + 8 + size + size % 2 <= usize::MAX);
}

/// A data chunk that is declared longer than the file holds what there is, and is the last chunk.
pub proof fn data_that_is_cut_short_ends_the_file(
    bytes: Seq<u8>,
    end: int,
    config: AudioDecodeConfig,
    cursor: int,
    found: Found,
)
    requires
        0 <= cursor,
        cursor + 8 <= end <= bytes.len(),
        cursor + 8 + le32(bytes, cursor + 4) > end,
        !found.has_data,
        bytes[cursor] == 0x64,
        bytes[cursor + 1] == 0x61,
        bytes[cursor + 2] == 0x74,
        bytes[cursor + 3] == 0x61,
    ensures
        scan(bytes, end, config, cursor, found) == Ok::<Found, WaveError>(
            Found {
                has_data: true,
                data_start: (cursor + 8) as usize,
                data_end: end as usize,
                cut_short: true,
                ..found
            },
        ),
{
    let name = bytes.subrange(cursor, cursor + 4);
    assert(name =~= data_name());
    let other = fmt_name();
    assert(name[0] == 0x64 && other[0] == 0x66);
    assert(present_size(bytes, end, cursor) == end - (cursor + 8));
}

/// A format is accepted exactly where its fields agree with each other and with the limits; it then
/// has the values that stand in the chunk.
pub proof fn formats_agree_with_their_fields(bytes: Seq<u8>, config: AudioDecodeConfig)
    requires
        bytes.len() >= 16,
    ensures
        ({
            let channels = le16(bytes, 2);
            let rate = le32(bytes, 4);
            let align = le16(bytes, 12);
            let bits = le16(bytes, 14);
            let integer = encoding_outcome(bytes) == Ok::<PcmSampleFormat, WaveError>(
                PcmSampleFormat::Integer,
            ) && (bits == 8 || bits == 16 || bits == 24 || bits == 32);
            let float = encoding_outcome(bytes) == Ok::<PcmSampleFormat, WaveError>(
                PcmSampleFormat::Float,
            ) && (bits == 32 || bits == 64);
            &&& format_outcome(bytes, config) is Ok <==> (integer || float) && 0 < channels
                <= config.max_channels && 0 < rate <= config.max_source_sample_rate && align
                == channels * (bits / 8) && le32(bytes, 8) == rate * align
            &&& format_outcome(bytes, config) matches Ok(format) ==> format.channels == channels
                && format.sample_rate == rate && format.block_align == align
                && format.bits_per_sample == bits
            &&& le16(bytes, 0) == 1 ==> encoding_outcome(bytes) == Ok::<PcmSampleFormat, WaveError>(
                PcmSampleFormat::Integer,
            )
            &&& le16(bytes, 0) == 3 ==> encoding_outcome(bytes) == Ok::<PcmSampleFormat, WaveError>(
                PcmSampleFormat::Float,
            )
            &&& le16(bytes, 0) != 1 && le16(bytes, 0) != 3 && le16(bytes, 0) != 65534
                ==> encoding_outcome(bytes) is Err
        }),
{
    let channels = le16(bytes, 2);
    let bits = le16(bytes, 14);
    let align = le16(bytes, 12);
    let rate = le32(bytes, 4);
    assert(channels * (bits / 8) <= u16::MAX || align != channels * (bits / 8));
    assert(rate * align <= u32::MAX || le32(bytes, 8) != rate * align);
}

/// The samples of a file are the whole frames of its data: where the data was cut short the rest of a
/// frame is left out, elsewhere there must be none.
pub proof fn samples_are_whole_frames(bytes: Seq<u8>, config: AudioDecodeConfig)
    requires
        wave_outcome(bytes, config) is Ok,
        bytes.len() <= usize::MAX,
    ensures
        ({
            let (format, start, end) = wave_outcome(bytes, config)->Ok_0;
            let found = scan(bytes, chunks_end(bytes), config, 12, nothing())->Ok_0;
            &&& bytes[0] == 0x52 && bytes[1] == 0x49 && bytes[2] == 0x46 && bytes[3] == 0x46
            &&& bytes[8] == 0x57 && bytes[9] == 0x41 && bytes[10] == 0x56 && bytes[11] == 0x45
            &&& format == found.format
            &&& start == found.data_start
            &&& found.data_start <= found.data_end && found.format.block_align > 0 ==> {
                &&& start < end <= found.data_end < end + format.block_align
                &&& !found.cut_short ==> end == found.data_end
                &&& (end - start) % format.block_align as int == 0
            }
        }),
{
    let riff = bytes.subrange(0, 4);
    let wave = bytes.subrange(8, 12);
    let r = seq![0x52u8, 0x49, 0x46, 0x46];
    let w = seq![0x57u8, 0x41, 0x56, 0x45];
    assert(riff == r && wave == w);
    assert(riff[0] == bytes[0] && riff[1] == bytes[1] && riff[2] == bytes[2] && riff[3]
        == bytes[3]);
    assert(wave[0] == bytes[8] && wave[1] == bytes[9] && wave[2] == bytes[10] && wave[3]
        == bytes[11]);
    let found = scan(bytes, chunks_end(bytes), config, 12, nothing())->Ok_0;
    let len = found.data_end - found.data_start;
    let frame = found.format.block_align as int;
    if len >= 0 && frame > 0 {
        vstd::arithmetic::div_mod::lemma_fundamental_div_mod(len, frame);
        let q = len / frame;
        assert(frame * q == q * frame) by (nonlinear_arith);
        vstd::arithmetic::div_mod::lemma_mod_multiples_basic(q, frame);
        vstd::arithmetic::div_mod::lemma_div_pos_is_pos(len, frame);
        assert(0 <= q * frame) by (nonlinear_arith)
            requires
                q >= 0,
                frame > 0,
        ;
    }
}

/// An extensible format is accepted exactly where its extension is there, all bits of a sample are
/// valid, and its identifier is one of the two known: it then names integers or floats as the plain
/// formats do.
pub proof fn extensible_formats_name_plain_ones(bytes: Seq<u8>)
    ensures
        extensible_outcome(bytes) is Ok <==> {
            &&& bytes.len() >= 40
            &&& le16(bytes, 16) >= 22
            &&& (le16(bytes, 18) as u16) == 0 || (le16(bytes, 18) as u16) == (le16(bytes, 14) as u16)
            &&& bytes.subrange(26, 40) == seq![
                0u8,
                0,
                0,
                0,
                0x10,
                0,
                0x80,
                0,
                0,
                0xaa,
                0,
                0x38,
                0x9b,
                0x71,
            ]
            &&& (le16(bytes, 24) as u16) == 1 || (le16(bytes, 24) as u16) == 3
        },
        extensible_outcome(bytes) matches Ok(format) ==> (format == PcmSampleFormat::Integer <==> (
        le16(bytes, 24) as u16) == 1) && (format == PcmSampleFormat::Float <==> (
        le16(bytes, 24) as u16) == 3),
{
}

} // verus!
