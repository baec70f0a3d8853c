//! The samples of a file as single-precision values, and how they are resampled and cut.
use super::config::AudioDecodeConfig;
use super::prepared::PreparedAudioChunk;
use super::wave::{depth_ok, PcmSampleFormat, PcmWaveFormat};
use crate::bits::{round_even, INFINITY_BITS};
use crate::bytes::{le16, le32, le64, signed32, to_signed32, u16_at, u32_at, u64_at};
use crate::text::{decimal, Text};
use vstd::arithmetic::power2::{lemma2_to64, lemma_pow2_pos, lemma_pow2_unfold, pow2};
use vstd::prelude::*;

verus! {

broadcast use crate::bytes::group_little_endian;

/// The place of the highest bit of a number.
pub open spec fn top_bit(m: int) -> int
    decreases m,
{
    if m < 2 {
        0
    } else {
        1 + top_bit(m / 2)
    }
}

/// The single-precision pattern of `v` divided by two to the power of `s`, rounded to nearest
/// even.
pub open spec fn scaled_bits(v: int, s: int) -> int {
    let m = if v < 0 {
        -v
    } else {
        v
    };
    let e = top_bit(m);
    let significand = if e <= 23 {
        m * pow2((23 - e) as nat)
    } else {
        round_even(m, pow2((e - 23) as nat) as int)
    };
    if v == 0 {
        0
    } else {
        (if v < 0 {
            2147483648int
        } else {
            0int
        }) + (e - s + 126) * 8388608 + significand
    }
}

/// The single-precision pattern of a double-precision pattern, rounded to nearest even.
pub open spec fn narrowed_double(b: u64) -> int {
    let sign = b as int / 0x8000_0000_0000_0000;
    let e = b as int / 0x10_0000_0000_0000 % 2048;
    let m = b as int % 0x10_0000_0000_0000;
    let u = e - 1023;
    let significand = 0x10_0000_0000_0000 + m;
    sign * 2147483648 + if e == 2047 {
        if m == 0 {
            INFINITY_BITS as int
        } else {
            INFINITY_BITS + 0x40_0000 + (m / 0x2000_0000) % 0x40_0000
        }
    } else if e == 0 || u < -150 {
        0
    } else if u >= 128 {
        INFINITY_BITS as int
    } else if u >= -126 {
        (u + 126) * 8388608 + round_even(significand, 0x2000_0000)
    } else {
        round_even(significand, pow2((-97 - u) as nat) as int)
    }
}

proof fn lemma_top_bit(m: int)
    requires
        m >= 1,
    ensures
        0 <= top_bit(m),
        pow2(top_bit(m) as nat) <= m < pow2((top_bit(m) + 1) as nat),
    decreases m,
{
    if m < 2 {
        lemma2_to64();
    } else {
        lemma_top_bit(m / 2);
        let e = top_bit(m / 2);
        lemma_pow2_unfold((e + 1) as nat);
        lemma_pow2_unfold((e + 2) as nat);
    }
}

fn highest_bit(m: u64) -> (e: u32)
    ensures
        e == top_bit(m as int),
        e < 64,
        m >= 1 ==> pow2(e as nat) <= m < pow2((e + 1) as nat),
    decreases m,
{
    proof {
        if m >= 1 {
            lemma_top_bit(m as int);
        }
    }
    if m < 2 {
        0
    } else {
        let e: u32 = highest_bit(m / 2);
        proof {
            lemma2_to64();
            if e >= 63 {
                vstd::arithmetic::power2::lemma_pow2_strictly_increases(63, (e + 1) as nat);
            }
        }
        e + 1
    }
}

fn two_to(k: u32) -> (d: u64)
    requires
        k < 64,
    ensures
        d == pow2(k as nat),
{
    let mut d: u64 = 1;
    let mut i: u32 = 0;
    proof {
        lemma2_to64();
    }
    while i < k
        invariant
            i <= k < 64,
            d == pow2(i as nat),
        decreases k - i,
    {
        proof {
            lemma_pow2_unfold((i + 1) as nat);
            lemma2_to64();
            vstd::arithmetic::power2::lemma_pow2_strictly_increases((i + 1) as nat, 64);
        }
        d = d * 2;
        i = i + 1;
    }
    d
}

fn divide_rounding(m: u64, d: u64) -> (q: u64)
    requires
        0 < d < 0x4000_0000_0000_0000,
        m < 0x8000_0000_0000_0000,
    ensures
        q == round_even(m as int, d as int),
{
    let q: u64 = m / d;
    let r: u64 = m % d;
    proof {
        vstd::arithmetic::div_mod::lemma_div_is_ordered_by_denominator(m as int, 1, d as int);
    }
    if 2 * r > d || (2 * r == d && q % 2 == 1) {
        q + 1
    } else {
        q
    }
}


fn signed_scaled_bits(v: i64, s: u32) -> (bits: u32)
    requires
        -0x8000_0000 <= v <= 0x7fff_ffff,
        s <= 31,
    ensures
        bits == scaled_bits(v as int, s as int),
{
    if v == 0 {
        return 0;
    }
    let m: u64 = if v < 0 {
        (-v) as u64
    } else {
        v as u64
    };
    let e: u32 = highest_bit(m);
    proof {
        lemma2_to64();
        if e >= 32 {
            vstd::arithmetic::power2::lemma_pow2_strictly_increases(31, e as nat);
        }
        assert(e <= 31);
    }
    let significand: u64 = if e <= 23 {
        let factor: u64 = two_to(23 - e);
        proof {
            vstd::arithmetic::power2::lemma_pow2_adds((e + 1) as nat, (23 - e) as nat);
            lemma_pow2_pos((23 - e) as nat);
            assert(m * factor < pow2((e + 1) as nat) * factor) by (nonlinear_arith)
                requires
                    m < pow2((e + 1) as nat),
                    factor > 0,
            ;
        }
        m * factor
    } else {
        let d: u64 = two_to(e - 23);
        proof {
            lemma_pow2_pos((e - 23) as nat);
            if e - 23 < 62 {
                vstd::arithmetic::power2::lemma_pow2_strictly_increases((e - 23) as nat, 62);
            }
        }
        divide_rounding(m, d)
    };
    proof {
        if e > 23 {
            let d = pow2((e - 23) as nat) as int;
            vstd::arithmetic::power2::lemma_pow2_adds((e - 23) as nat, 24);
            assert(m < d * 0x100_0000);
            assert(m as int / d < 0x100_0000) by (nonlinear_arith)
                requires
                    0 <= m < d * 0x100_0000,
                    d > 0,
            ;
        }
        assert(significand <= 0x100_0000);
    }
    let magnitude: u64 = (e as u64 + 126 - s as u64) * 8388608 + significand;
    if v < 0 {
        (2147483648 + magnitude) as u32
    } else {
        magnitude as u32
    }
}

/// The signed value of a 24-bit pattern.
pub open spec fn signed24(v: int) -> int {
    if v < 8388608 {
        v
    } else {
        v - 16777216
    }
}

/// The signed value of a 16-bit pattern.
pub open spec fn signed16(v: int) -> int {
    if v < 32768 {
        v
    } else {
        v - 65536
    }
}

/// The pattern of the sample at a place: integers are scaled to the range from minus one to one,
/// floats are as they are stored.
pub open spec fn sample_bits(data: Seq<u8>, at: int, format: PcmSampleFormat, depth: u16) -> int {
    match format {
        PcmSampleFormat::Integer => if depth == 8 {
            scaled_bits(data[at] - 128, 7)
        } else if depth == 16 {
            scaled_bits(signed16(le16(data, at)), 15)
        } else if depth == 24 {
            scaled_bits(
                signed24(data[at] + 256 * data[at + 1] + 65536 * data[at + 2]),
                23,
            )
        } else {
            scaled_bits(signed32(le32(data, at)), 31)
        },
        PcmSampleFormat::Float => if depth == 32 {
            le32(data, at)
        } else {
            narrowed_double(le64(data, at) as u64)
        },
    }
}

/// The pattern of the integer sample at a place.
pub fn decode_integer_sample(data: &[u8], at: usize, bits_per_sample: u16) -> (bits: u32)
    requires
        depth_ok(PcmSampleFormat::Integer, bits_per_sample),
        at + bits_per_sample as int / 8 <= data@.len(),
    ensures
        bits == sample_bits(data@, at as int, PcmSampleFormat::Integer, bits_per_sample),
{
    assert(data@.len() == data.len());
    if bits_per_sample == 8 {
        signed_scaled_bits(data[at] as i64 - 128, 7)
    } else if bits_per_sample == 16 {
        let v: i64 = u16_at(data, at) as i64;
        signed_scaled_bits(
            if v < 32768 {
                v
            } else {
                v - 65536
            },
            15,
        )
    } else if bits_per_sample == 24 {
        let v: i64 = data[at] as i64 + 256 * (data[at + 1] as i64) + 65536 * (data[at + 2] as i64);
        signed_scaled_bits(
            if v < 8388608 {
                v
            } else {
                v - 16777216
            },
            23,
        )
    } else {
        signed_scaled_bits(to_signed32(u32_at(data, at)) as i64, 31)
    }
}

/// A scaled integer of at most 24 bits is exact: the pattern has its sign, and the value that the
/// exponent and the fraction of the pattern stand for is the integer over the power of two.
pub proof fn scaled_integers_are_exact(v: int, s: int)
    requires
        v != 0,
        -16777216 < v < 16777216,
        0 <= s <= 126,
    ensures
        ({
            let p = scaled_bits(v, s);
            let exponent = p / 8388608 % 256;
            let significand = 8388608 + p % 8388608;
            let m = if v < 0 {
                -v
            } else {
                v
            };
            &&& p / 2147483648 == if v < 0 {
                1int
            } else {
                0int
            }
            &&& 0 < exponent < 255
            &&& significand * pow2(exponent as nat) * pow2(s as nat) == m * pow2(150)
        }),
{
    let m = if v < 0 {
        -v
    } else {
        v
    };
    lemma_top_bit(m);
    lemma2_to64();
    let e = top_bit(m);
    if e >= 24 {
        if e > 24 {
            vstd::arithmetic::power2::lemma_pow2_strictly_increases(24, e as nat);
        }
        assert(false);
    }
    let up = pow2((23 - e) as nat) as int;
    let low = pow2(e as nat) as int;
    vstd::arithmetic::power2::lemma_pow2_adds(e as nat, (23 - e) as nat);
    vstd::arithmetic::power2::lemma_pow2_adds(1, e as nat);
    assert(8388608 <= m * up < 16777216) by (nonlinear_arith)
        requires
            low <= m < 2 * low,
            low * up == 8388608,
            up > 0 || up <= 0,
            low > 0,
    ;
    let exponent = e - s + 127;
    let p = scaled_bits(v, s);
    let fraction = m * up - 8388608;
    let sign = if v < 0 {
        1int
    } else {
        0int
    };
    assert(p == sign * 2147483648 + exponent * 8388608 + fraction);
    assert(0 < exponent < 255);
    assert(p / 8388608 == sign * 256 + exponent);
    assert(p % 8388608 == fraction);
    assert((sign * 256 + exponent) % 256 == exponent);
    assert(p / 2147483648 == sign);
    let x = pow2(exponent as nat) as int;
    let y = pow2(s as nat) as int;
    vstd::arithmetic::power2::lemma_pow2_adds(exponent as nat, s as nat);
    vstd::arithmetic::power2::lemma_pow2_adds((23 - e) as nat, (e + 127) as nat);
    let z = pow2((e + 127) as nat) as int;
    assert(x * y == z);
    assert(up * z == pow2(150));
    assert((m * up) * x * y == m * (up * z)) by (nonlinear_arith)
        requires
            x * y == z,
    ;
}

/// An integer sample is its stored value over the range of its depth: 8 bits are stored above 128,
/// the others in two's complement, lowest byte first.
pub proof fn integer_samples_are_fractions(data: Seq<u8>, at: int, depth: u16, v: int)
    requires
        depth == 8 || depth == 16 || depth == 24,
        0 <= at,
        at + depth as int / 8 <= data.len(),
        depth == 8 ==> v == data[at] - 128,
        depth == 16 ==> (v - (data[at] + 256 * data[at + 1])) % 65536 == 0 && -32768 <= v < 32768,
        depth == 24 ==> (v - (data[at] + 256 * data[at + 1] + 65536 * data[at + 2])) % 16777216
            == 0 && -8388608 <= v < 8388608,
    ensures
        sample_bits(data, at, PcmSampleFormat::Integer, depth) == scaled_bits(v, depth - 1),
{
    reveal(le16);
}

/// A double that single precision can hold keeps its value: its sign, its exponent over the other
/// bias and the upper bits of its fraction.
pub proof fn narrowing_keeps_representable_doubles(b: u64)
    requires
        897 <= b as int / 0x10_0000_0000_0000 % 2048 <= 1150,
        b as int % 0x2000_0000 == 0,
    ensures
        ({
            let p = narrowed_double(b);
            &&& p / 2147483648 == b as int / 0x8000_0000_0000_0000
            &&& p / 8388608 % 256 == b as int / 0x10_0000_0000_0000 % 2048 - 896
            &&& p % 8388608 == b as int % 0x10_0000_0000_0000 / 0x2000_0000
        }),
{
    let sign = b as int / 0x8000_0000_0000_0000;
    let e = b as int / 0x10_0000_0000_0000 % 2048;
    let m = b as int % 0x10_0000_0000_0000;
    let fraction = m / 0x2000_0000;
    assert(m % 0x2000_0000 == 0);
    let significand = 0x10_0000_0000_0000 + m;
    assert(significand / 0x2000_0000 == 8388608 + fraction);
    assert(significand % 0x2000_0000 == 0);
    assert(0 <= fraction < 8388608);
    let p = narrowed_double(b);
    assert(p == sign * 2147483648 + (e - 896) * 8388608 + fraction);
    assert(0 <= sign <= 1);
    assert(p / 8388608 == sign * 256 + (e - 896));
}

/// The single-precision pattern of a double-precision pattern.
pub fn narrow_double(b: u64) -> (bits: u32)
    ensures
        bits == narrowed_double(b),
{
    let sign: u64 = b / 0x8000_0000_0000_0000;
    let e: u64 = b / 0x10_0000_0000_0000 % 2048;
    let m: u64 = b % 0x10_0000_0000_0000;
    let significand: u64 = 0x10_0000_0000_0000 + m;
    let magnitude: u64 = if e == 2047 {
        if m == 0 {
            INFINITY_BITS as u64
        } else {
            INFINITY_BITS as u64 + 0x40_0000 + (m / 0x2000_0000) % 0x40_0000
        }
    } else if e == 0 || e < 873 {
        0
    } else if e >= 1151 {
        INFINITY_BITS as u64
    } else if e >= 897 {
        let rounded: u64 = divide_rounding(significand, 0x2000_0000);
        (e - 897) * 8388608 + rounded
    } else {
        let shift: u32 = (926 - e) as u32;
        let d: u64 = two_to(shift);
        proof {
            lemma2_to64();
            vstd::arithmetic::power2::lemma2_to64_rest();
            lemma_pow2_pos(shift as nat);
            vstd::arithmetic::power2::lemma_pow2_strictly_increases(shift as nat, 62);
            if shift > 29 {
                vstd::arithmetic::power2::lemma_pow2_strictly_increases(29, shift as nat);
            }
            assert(significand as int / d as int <= 0x100_0000) by (nonlinear_arith)
                requires
                    0 <= significand < 0x20_0000_0000_0000,
                    d >= 0x2000_0000,
            ;
        }
        divide_rounding(significand, d)
    };
    assert(magnitude < 2147483648);
    (sign * 2147483648 + magnitude) as u32
}

/// The pattern of the stored float at a place.
pub fn decode_float_sample(data: &[u8], at: usize, bits_per_sample: u16) -> (bits: u32)
    requires
        depth_ok(PcmSampleFormat::Float, bits_per_sample),
        at + bits_per_sample as int / 8 <= data@.len(),
    ensures
        bits == sample_bits(data@, at as int, PcmSampleFormat::Float, bits_per_sample),
{
    if bits_per_sample == 32 {
        u32_at(data, at)
    } else {
        narrow_double(u64_at(data, at))
    }
}

/// The pattern of the sample at a place.
pub fn decode_sample(data: &[u8], at: usize, format: PcmWaveFormat) -> (bits: u32)
    requires
        depth_ok(format.sample_format, format.bits_per_sample),
        at + format.bits_per_sample as int / 8 <= data@.len(),
    ensures
        bits == sample_bits(data@, at as int, format.sample_format, format.bits_per_sample),
{
    match format.sample_format {
        PcmSampleFormat::Integer => decode_integer_sample(data, at, format.bits_per_sample),
        PcmSampleFormat::Float => decode_float_sample(data, at, format.bits_per_sample),
    }
}

/// The patterns of all samples, frame by frame: the channels of a frame follow each other.
pub fn decode_samples(data: &[u8], format: PcmWaveFormat) -> (samples: Vec<u32>)
    requires
        format.wf(),
    ensures
        samples@.len() == data@.len() as int / (format.bits_per_sample as int / 8),
        forall|k: int|
            0 <= k < samples@.len() ==> #[trigger] samples@[k] == sample_bits(
                data@,
                k * (format.bits_per_sample as int / 8),
                format.sample_format,
                format.bits_per_sample,
            ),
{
    let width: usize = (format.bits_per_sample / 8) as usize;
    let count: usize = data.len() / width;
    let mut samples: Vec<u32> = Vec::new();
    let mut k: usize = 0;
    let mut at: usize = 0;
    proof {
        vstd::arithmetic::div_mod::lemma_fundamental_div_mod(data@.len() as int, width as int);
        assert(width * count == count * width) by (nonlinear_arith);
    }
    while k < count
        invariant
            format.wf(),
            width == format.bits_per_sample as int / 8,
            width > 0,
            k == samples@.len(),
            k <= count,
            at == k * width,
            count * width <= data@.len() <= usize::MAX,
            forall|j: int|
                0 <= j < samples@.len() ==> #[trigger] samples@[j] == sample_bits(
                    data@,
                    j * width,
                    format.sample_format,
                    format.bits_per_sample,
                ),
        decreases count - k,
    {
        assert(k * width + width <= count * width) by (nonlinear_arith)
            requires
                k + 1 <= count,
        ;
        samples.push(decode_sample(data, at, format));
        assert((k + 1) * width == k * width + width) by (nonlinear_arith);
        at = at + width;
        k = k + 1;
    }
    samples
}

/// Why samples are not accepted.
#[derive(Clone, Copy, Debug, PartialEq, Eq, Structural)]
pub enum SampleError {
    TooLong,
    LimitExceeded { samples: usize, limit: usize },
    ChunkIndex(usize),
    ChunkOverflow,
    ChunkBounds { end: usize, total: usize },
}

impl SampleError {
    /// The message text of the error, for the file at a path.
    pub open spec fn text(self, path: Seq<char>) -> Seq<char> {
        match self {
            SampleError::TooLong => "resampled audio is too long"@,
            SampleError::LimitExceeded { samples, limit } => "audio file '"@ + path
                + "' is too long after resampling: "@ + decimal(samples as nat)
                + " samples exceeds limit "@ + decimal(limit as nat),
            SampleError::ChunkIndex(index) => "audio chunk index out of range: "@ + decimal(
                index as nat,
            ),
            SampleError::ChunkOverflow => "audio chunk range overflow"@,
            SampleError::ChunkBounds { end, total } => "audio chunk range out of bounds: end="@
                + decimal(end as nat) + " > total_samples="@ + decimal(total as nat),
        }
    }

    /// The message text of the error, for the file at a path.
    pub fn message(self, path: &str) -> (message: String)
        ensures
            message@ == self.text(path@),
    {
        match self {
            SampleError::TooLong => Text::start("resampled audio is too long").finish(),
            SampleError::LimitExceeded { samples, limit } => Text::start("audio file '").text(
                path,
            ).text("' is too long after resampling: ").size(samples).text(
                " samples exceeds limit ",
            ).size(limit).finish(),
            SampleError::ChunkIndex(index) => Text::start(
                "audio chunk index out of range: ",
            ).size(index).finish(),
            SampleError::ChunkOverflow => Text::start("audio chunk range overflow").finish(),
            SampleError::ChunkBounds { end, total } => Text::start(
                "audio chunk range out of bounds: end=",
            ).size(end).text(" > total_samples=").size(total).finish(),
        }
    }
}

/// The number of samples after resampling: to the nearest, and at least one.
pub open spec fn resampled(len: int, source: int, target: int) -> int {
    let rounded = (len * target + source / 2) / source;
    if rounded < 1 {
        1
    } else {
        rounded
    }
}

/// The number of samples after resampling.
pub fn resampled_length(input_len: usize, source_rate: u32, target_rate: u32) -> (result: Result<
    usize,
    SampleError,
>)
    requires
        source_rate > 0,
    ensures
        result == if resampled(input_len as int, source_rate as int, target_rate as int)
            > usize::MAX {
            Err::<usize, SampleError>(SampleError::TooLong)
        } else {
            Ok(
                resampled(
                    input_len as int,
                    source_rate as int,
                    target_rate as int,
                ) as usize,
            )
        },
{
    proof {
        assert(input_len * target_rate <= 0xffff_ffff_ffff_ffff * 0xffff_ffff) by (nonlinear_arith)
            requires
                0 <= input_len <= 0xffff_ffff_ffff_ffff,
                0 <= target_rate <= 0xffff_ffff,
        ;
        assert(input_len * target_rate >= 0) by (nonlinear_arith);
    }
    let numerator: u128 = (input_len as u128) * (target_rate as u128);
    let rounded: u128 = (numerator + (source_rate / 2) as u128) / (source_rate as u128);
    if rounded > usize::MAX as u128 {
        return Err(SampleError::TooLong);
    }
    if rounded < 1 {
        Ok(1)
    } else {
        Ok(rounded as usize)
    }
}

/// The number of samples after resampling, within the limit.
pub fn checked_output_sample_count(
    source_sample_count: usize,
    source_sample_rate: u32,
    config: AudioDecodeConfig,
) -> (result: Result<usize, SampleError>)
    requires
        source_sample_rate > 0,
    ensures
        ({
            let len = resampled(
                source_sample_count as int,
                source_sample_rate as int,
                config.target_sample_rate as int,
            );
            result == if len > usize::MAX {
                Err::<usize, SampleError>(SampleError::TooLong)
            } else if len > config.max_output_samples {
                Err(
                    SampleError::LimitExceeded {
                        samples: len as usize,
                        limit: config.max_output_samples,
                    },
                )
            } else {
                Ok(len as usize)
            }
        }),
{
    match resampled_length(source_sample_count, source_sample_rate, config.target_sample_rate) {
        Err(error) => Err(error),
        Ok(samples) => if samples > config.max_output_samples {
            Err(SampleError::LimitExceeded { samples, limit: config.max_output_samples })
        } else {
            Ok(samples)
        },
    }
}

/// The greatest common divisor.
pub open spec fn gcd(a: int, b: int) -> int
    decreases b,
{
    if b <= 0 {
        a
    } else {
        gcd(b, a % b)
    }
}

/// The greatest common divisor of two rates.
pub fn greatest_common_divisor(left: u32, right: u32) -> (divisor: u32)
    ensures
        divisor == gcd(left as int, right as int),
        left > 0 || right > 0 ==> divisor > 0,
{
    let mut a: u32 = left;
    let mut b: u32 = right;
    while b != 0
        invariant
            gcd(left as int, right as int) == gcd(a as int, b as int),
            left > 0 || right > 0 ==> a > 0 || b > 0,
        decreases b,
    {
        let rest: u32 = a % b;
        a = b;
        b = rest;
    }
    a
}

/// The greatest common divisor of two numbers divides both, and every common divisor divides it.
pub proof fn gcd_is_the_greatest_divisor(a: int, b: int, d: int)
    requires
        a >= 0,
        b >= 0,
        a > 0 || b > 0,
        d > 0,
    ensures
        gcd(a, b) > 0,
        a % gcd(a, b) == 0,
        b % gcd(a, b) == 0,
        a % d == 0 && b % d == 0 ==> gcd(a, b) % d == 0,
    decreases b,
{
    if b > 0 {
        let r = a % b;
        let q = a / b;
        vstd::arithmetic::div_mod::lemma_fundamental_div_mod(a, b);
        gcd_is_the_greatest_divisor(b, r, d);
        let g = gcd(b, r);
        lemma_combination(b, r, q, g);
        assert(a == b * q + r);
        if a % d == 0 && b % d == 0 {
            lemma_combination(b, a, -q, d);
            assert(a + b * (-q) == r) by (nonlinear_arith)
                requires
                    a == b * q + r,
            ;
        }
    } else {
        vstd::arithmetic::div_mod::lemma_mod_self_0(a);
        assert(0int % a == 0) by (nonlinear_arith)
            requires
                a > 0,
        ;
    }
}

proof fn lemma_combination(b: int, r: int, q: int, g: int)
    requires
        g > 0,
        b % g == 0,
        r % g == 0,
    ensures
        (b * q + r) % g == 0,
        (r + b * q) % g == 0,
{
    vstd::arithmetic::div_mod::lemma_fundamental_div_mod(b, g);
    vstd::arithmetic::div_mod::lemma_fundamental_div_mod(r, g);
    let x = b / g;
    let y = r / g;
    assert(b * q + r == (x * q + y) * g) by (nonlinear_arith)
        requires
            b == g * x,
            r == g * y,
    ;
    vstd::arithmetic::div_mod::lemma_mod_multiples_basic(x * q + y, g);
}

/// When an output sample is made: how many input samples have been read, and where between the
/// last two it lies, in parts of the output rate.
#[derive(Clone, Copy, Debug, PartialEq, Eq, Structural)]
pub struct ResampleStep {
    pub inputs_read: usize,
    pub fraction: u32,
}

/// The number of inputs that are read before output `k`.
pub open spec fn inputs_before(k: int, rate_in: int, rate_out: int) -> int {
    1 + (k * rate_in) / rate_out
}

/// The position of output `k` between two inputs, in parts of the output rate.
pub open spec fn fraction_of(k: int, rate_in: int, rate_out: int) -> int {
    (k * rate_in) % rate_out
}

proof fn lemma_next_step(k: int, rate_in: int, rate_out: int)
    requires
        k >= 0,
        rate_in >= 0,
        rate_out > 0,
    ensures
        ({
            let f = fraction_of(k, rate_in, rate_out) + rate_in % rate_out;
            let carry = if f >= rate_out {
                1int
            } else {
                0int
            };
            &&& fraction_of(k + 1, rate_in, rate_out) == f - carry * rate_out
            &&& inputs_before(k + 1, rate_in, rate_out) == inputs_before(k, rate_in, rate_out)
                + rate_in / rate_out + carry
            &&& 0 <= fraction_of(k, rate_in, rate_out) < rate_out
        }),
{
    let n = k * rate_in;
    let q = n / rate_out;
    let r = n % rate_out;
    let qi = rate_in / rate_out;
    let ri = rate_in % rate_out;
    vstd::arithmetic::div_mod::lemma_fundamental_div_mod(n, rate_out);
    vstd::arithmetic::div_mod::lemma_fundamental_div_mod(rate_in, rate_out);
    assert((k + 1) * rate_in == n + rate_in) by (nonlinear_arith)
        requires
            n == k * rate_in,
    ;
    let f = r + ri;
    let carry = if f >= rate_out {
        1int
    } else {
        0int
    };
    assert(n + rate_in == (q + qi + carry) * rate_out + (f - carry * rate_out))
        by (nonlinear_arith)
        requires
            n == rate_out * q + r,
            rate_in == rate_out * qi + ri,
            f == r + ri,
    ;
    assert(0 <= f - carry * rate_out < rate_out);
    vstd::arithmetic::div_mod::lemma_fundamental_div_mod_converse(
        n + rate_in,
        rate_out,
        q + qi + carry,
        f - carry * rate_out,
    );
}

/// The schedule of resampling: as many outputs as asked for, but none for which the input is too
/// short.
pub fn resample_schedule(
    input_len: usize,
    source_rate: u32,
    target_rate: u32,
    output_len: usize,
) -> (steps: Vec<ResampleStep>)
    requires
        source_rate > 0,
        target_rate > 0,
    ensures
        ({
            let divisor = gcd(source_rate as int, target_rate as int);
            let rate_in = source_rate as int / divisor;
            let rate_out = target_rate as int / divisor;
            &&& steps@.len() <= output_len
            &&& forall|k: int|
                0 <= k < steps@.len() ==> {
                    &&& (#[trigger] steps@[k]).inputs_read == inputs_before(k, rate_in, rate_out)
                    &&& steps@[k].fraction == fraction_of(k, rate_in, rate_out)
                    &&& steps@[k].inputs_read <= input_len
                }
            &&& steps@.len() < output_len ==> inputs_before(
                steps@.len() as int,
                rate_in,
                rate_out,
            ) > input_len
        }),
{
    let divisor: u32 = greatest_common_divisor(source_rate, target_rate);
    proof {
        gcd_is_the_greatest_divisor(source_rate as int, target_rate as int, 1);
    }
    let rate_in: u32 = source_rate / divisor;
    let rate_out: u32 = target_rate / divisor;
    proof {
        vstd::arithmetic::div_mod::lemma_fundamental_div_mod(
            target_rate as int,
            divisor as int,
        );
        assert(rate_out > 0) by (nonlinear_arith)
            requires
                target_rate == divisor * rate_out,
                target_rate > 0,
                divisor > 0,
                rate_out >= 0,
        ;
    }
    let advance: u32 = rate_in / rate_out;
    let advance_fraction: u32 = rate_in % rate_out;
    let mut steps: Vec<ResampleStep> = Vec::new();
    let mut inputs_read: usize = 1;
    let mut fraction: u32 = 0;
    proof {
        assert(0 * rate_in == 0);
    }
    while steps.len() < output_len
        invariant_except_break
            rate_out > 0,
            rate_in == source_rate as int / gcd(source_rate as int, target_rate as int),
            rate_out == target_rate as int / gcd(source_rate as int, target_rate as int),
            advance == rate_in as int / rate_out as int,
            advance_fraction == rate_in as int % rate_out as int,
            steps@.len() <= output_len,
            inputs_read == inputs_before(steps@.len() as int, rate_in as int, rate_out as int),
            fraction == fraction_of(steps@.len() as int, rate_in as int, rate_out as int),
            forall|k: int|
                0 <= k < steps@.len() ==> {
                    &&& (#[trigger] steps@[k]).inputs_read == inputs_before(
                        k,
                        rate_in as int,
                        rate_out as int,
                    )
                    &&& steps@[k].fraction == fraction_of(k, rate_in as int, rate_out as int)
                    &&& steps@[k].inputs_read <= input_len
                },
        ensures
            steps@.len() <= output_len,
            rate_in == source_rate as int / gcd(source_rate as int, target_rate as int),
            rate_out == target_rate as int / gcd(source_rate as int, target_rate as int),
            steps@.len() < output_len ==> inputs_before(
                steps@.len() as int,
                rate_in as int,
                rate_out as int,
            ) > input_len,
            forall|k: int|
                0 <= k < steps@.len() ==> {
                    &&& (#[trigger] steps@[k]).inputs_read == inputs_before(
                        k,
                        rate_in as int,
                        rate_out as int,
                    )
                    &&& steps@[k].fraction == fraction_of(k, rate_in as int, rate_out as int)
                    &&& steps@[k].inputs_read <= input_len
                },
        decreases output_len - steps.len(),
    {
        if inputs_read > input_len {
            break;
        }
        let ghost k = steps@.len() as int;
        steps.push(ResampleStep { inputs_read, fraction });
        proof {
            lemma_next_step(k, rate_in as int, rate_out as int);
        }
        let sum: u64 = fraction as u64 + advance_fraction as u64;
        let carry: usize = if sum >= rate_out as u64 {
            1
        } else {
            0
        };
        fraction = if carry == 1 {
            (sum - rate_out as u64) as u32
        } else {
            sum as u32
        };
        let advanced: usize = match inputs_read.checked_add(advance as usize) {
            Some(n) => n,
            None => {
                break;
            },
        };
        inputs_read =
        match advanced.checked_add(carry) {
            Some(n) => n,
            None => {
                break;
            },
        };
    }
    steps
}

/// The schedule never runs out of input before the planned length: every output up to the number
/// of samples after resampling can be made.
pub proof fn resampling_fills_the_planned_length(len: int, source: int, target: int, k: int)
    requires
        len >= 1,
        source > 0,
        target > 0,
        0 <= k < resampled(len, source, target),
    ensures
        ({
            let divisor = gcd(source, target);
            inputs_before(k, source / divisor, target / divisor) <= len
        }),
{
    let g = gcd(source, target);
    gcd_is_the_greatest_divisor(source, target, 1);
    let rate_in = source / g;
    let rate_out = target / g;
    vstd::arithmetic::div_mod::lemma_fundamental_div_mod(source, g);
    vstd::arithmetic::div_mod::lemma_fundamental_div_mod(target, g);
    assert(rate_out > 0) by (nonlinear_arith)
        requires
            target == g * rate_out,
            target > 0,
            g > 0,
    ;
    if k == 0 {
        assert(0 * rate_in == 0);
        assert(0int / rate_out == 0) by (nonlinear_arith)
            requires
                rate_out > 0,
        ;
    } else {
        let top = len * target + source / 2;
        let q = top / source;
        vstd::arithmetic::div_mod::lemma_fundamental_div_mod(top, source);
        assert(k * source < len * target) by (nonlinear_arith)
            requires
                k + 1 <= q,
                top == source * q + top % source,
                0 <= top % source,
                top == len * target + source / 2,
                source / 2 < source,
                source > 0,
        ;
        assert(k * rate_in < len * rate_out) by (nonlinear_arith)
            requires
                k * source < len * target,
                source == g * rate_in,
                target == g * rate_out,
                g > 0,
        ;
        let n = k * rate_in;
        vstd::arithmetic::div_mod::lemma_fundamental_div_mod(n, rate_out);
        let f = n / rate_out;
        assert(f < len) by (nonlinear_arith)
            requires
                n < len * rate_out,
                n == rate_out * f + n % rate_out,
                0 <= n % rate_out,
                rate_out > 0,
        ;
    }
}

/// Outputs lie where they should: output `k` lies at the time of input sample `k` times the ratio
/// of the rates, that is between the last two inputs that were read before it, at the fraction
/// given in parts of the output rate. Stated for the rates themselves, not reduced.
pub proof fn outputs_lie_at_their_time(source: int, target: int, k: int)
    requires
        source > 0,
        target > 0,
        k >= 0,
    ensures
        ({
            let divisor = gcd(source, target);
            let rate_in = source / divisor;
            let rate_out = target / divisor;
            let read = inputs_before(k, rate_in, rate_out);
            let fraction = fraction_of(k, rate_in, rate_out);
            &&& (read - 1) * target + fraction * divisor == k * source
            &&& 0 <= fraction * divisor < target
            &&& source % divisor == 0
            &&& target % divisor == 0
            &&& divisor > 0
        }),
{
    let g = gcd(source, target);
    gcd_is_the_greatest_divisor(source, target, 1);
    let rate_in = source / g;
    let rate_out = target / g;
    vstd::arithmetic::div_mod::lemma_fundamental_div_mod(source, g);
    vstd::arithmetic::div_mod::lemma_fundamental_div_mod(target, g);
    assert(rate_out > 0) by (nonlinear_arith)
        requires
            target == g * rate_out,
            target > 0,
            g > 0,
    ;
    let n = k * rate_in;
    let q = n / rate_out;
    let f = n % rate_out;
    vstd::arithmetic::div_mod::lemma_fundamental_div_mod(n, rate_out);
    assert(0 <= f < rate_out) by (nonlinear_arith)
        requires
            f == n % rate_out,
            rate_out > 0,
    ;
    assert(q * target + f * g == k * source) by (nonlinear_arith)
        requires
            n == k * rate_in,
            n == rate_out * q + f,
            target == g * rate_out,
            source == g * rate_in,
    ;
    assert(0 <= f * g < target) by (nonlinear_arith)
        requires
            0 <= f < rate_out,
            target == g * rate_out,
            g > 0,
    ;
}

/// The number of samples after resampling is the nearest to the length times the ratio of the
/// rates, and at least one.
pub proof fn resampled_length_is_nearest(len: int, source: int, target: int)
    requires
        len >= 0,
        source > 0,
        target >= 0,
    ensures
        resampled(len, source, target) >= 1,
        resampled(len, source, target) > 1 ==> -source <= 2 * (resampled(len, source, target)
            * source - len * target) <= source,
        resampled(len, source, target) == 1 ==> 2 * (len * target) < 3 * source,
{
    let top = len * target + source / 2;
    let q = top / source;
    vstd::arithmetic::div_mod::lemma_fundamental_div_mod(top, source);
    assert(q * source == source * q) by (nonlinear_arith);
    assert(0 <= top % source < source) by (nonlinear_arith)
        requires
            source > 0,
    ;
    assert(q <= 1 ==> q * source <= source) by (nonlinear_arith)
        requires
            source > 0,
    ;
}

/// The chunks of samples: all of one size but the last.
pub open spec fn chunk_at(total: int, size: int, i: int) -> PreparedAudioChunk {
    PreparedAudioChunk {
        start_sample: (i * size) as usize,
        sample_count: (if total - i * size < size {
            total - i * size
        } else {
            size
        }) as usize,
    }
}

/// Cuts samples into chunks.
pub fn plan_chunks(total_samples: usize, chunk_size: usize) -> (chunks: Vec<PreparedAudioChunk>)
    requires
        chunk_size > 0,
    ensures
        chunks@.len() == (total_samples + chunk_size - 1) / chunk_size as int,
        forall|i: int|
            0 <= i < chunks@.len() ==> #[trigger] chunks@[i] == chunk_at(
                total_samples as int,
                chunk_size as int,
                i,
            ) && i * chunk_size < total_samples,
        chunks@.len() > 0 ==> chunks@[0].start_sample == 0,
        forall|i: int|
            0 <= i < chunks@.len() - 1 ==> (#[trigger] chunks@[i]).sample_count == chunk_size
                && chunks@[i + 1].start_sample == chunks@[i].start_sample + chunk_size,
        chunks@.len() > 0 ==> 0 < chunks@.last().sample_count <= chunk_size
            && chunks@.last().start_sample + chunks@.last().sample_count == total_samples,
        chunks@.len() == 0 <==> total_samples == 0,
{
    let mut chunks: Vec<PreparedAudioChunk> = Vec::new();
    let mut start: usize = 0;
    proof {
        assert(0 * chunk_size == 0);
        if total_samples == 0 {
            vstd::arithmetic::div_mod::lemma_basic_div(chunk_size - 1, chunk_size as int);
        }
    }
    while start < total_samples
        invariant
            chunk_size > 0,
            start <= total_samples,
            start < total_samples ==> start == chunks@.len() * chunk_size,
            start == total_samples ==> chunks@.len() == (total_samples + chunk_size - 1)
                / chunk_size as int,
            forall|i: int|
                0 <= i < chunks@.len() ==> #[trigger] chunks@[i] == chunk_at(
                    total_samples as int,
                    chunk_size as int,
                    i,
                ) && i * chunk_size < total_samples,
        decreases total_samples - start,
    {
        let ghost n = chunks@.len() as int;
        let rest: usize = total_samples - start;
        let sample_count: usize = if rest < chunk_size {
            rest
        } else {
            chunk_size
        };
        chunks.push(PreparedAudioChunk { start_sample: start, sample_count });
        proof {
            assert((n + 1) * chunk_size == n * chunk_size + chunk_size) by (nonlinear_arith);
            if rest <= chunk_size {
                let top = total_samples + chunk_size - 1;
                vstd::arithmetic::div_mod::lemma_fundamental_div_mod_converse(
                    top,
                    chunk_size as int,
                    n + 1,
                    top - (n + 1) * chunk_size,
                );
            }
        }
        start = start + sample_count;
    }
    proof {
        let n = chunks@.len() as int;
        let size = chunk_size as int;
        let total = total_samples as int;
        if total == 0 {
            vstd::arithmetic::div_mod::lemma_basic_div(size - 1, size);
        }
        vstd::arithmetic::div_mod::lemma_fundamental_div_mod(total + size - 1, size);
        assert(size * n == n * size && (n - 1) * size == n * size - size) by (nonlinear_arith);
        assert(total > 0 ==> n > 0) by (nonlinear_arith)
            requires
                total + size - 1 == n * size + (total + size - 1) % size,
                (total + size - 1) % size < size,
                size > 0,
        ;
        assert(0 * size == 0);
        assert forall|i: int| 0 <= i < n - 1 implies (#[trigger] chunks@[i]).sample_count
            == chunk_size && chunks@[i + 1].start_sample == chunks@[i].start_sample
            + chunk_size by {
            assert((i + 1) * size == i * size + size) by (nonlinear_arith);
            assert(0 <= i * size) by (nonlinear_arith)
                requires
                    0 <= i,
                    0 < size,
            ;
            assert(chunks@[i + 1] == chunk_at(total, size, i + 1));
        }
        if n > 0 {
            assert(0 <= (n - 1) * size) by (nonlinear_arith)
                requires
                    0 < n,
                    0 < size,
            ;
            assert(chunks@[n - 1] == chunk_at(total, size, n - 1));
        }
    }
    chunks
}

/// Chunks follow each other without gaps up to the end of the samples.
pub proof fn chunks_cover_all_samples(total: int, size: int, i: int)
    requires
        0 <= total <= usize::MAX,
        0 < size <= usize::MAX,
        0 <= i,
        i * size < total,
    ensures
        ({
            let chunk = chunk_at(total, size, i);
            let end = chunk.start_sample + chunk.sample_count;
            &&& chunk.sample_count > 0
            &&& end <= total
            &&& end == total || end == chunk_at(total, size, i + 1).start_sample
        }),
{
    assert(0 <= i * size) by (nonlinear_arith)
        requires
            0 <= i,
            0 < size,
    ;
    assert((i + 1) * size == i * size + size) by (nonlinear_arith);
}

/// The samples of a chunk.
pub fn load_audio_chunk_samples<T: Copy>(
    samples: &[T],
    chunks: &[PreparedAudioChunk],
    chunk_idx: usize,
) -> (result: Result<Vec<T>, SampleError>)
    ensures
        if chunk_idx >= chunks@.len() {
            result == Err::<Vec<T>, SampleError>(SampleError::ChunkIndex(chunk_idx))
        } else {
            let chunk = chunks@[chunk_idx as int];
            let end = chunk.start_sample + chunk.sample_count;
            if end > usize::MAX {
                result == Err::<Vec<T>, SampleError>(SampleError::ChunkOverflow)
            } else if end > samples@.len() {
                result == Err::<Vec<T>, SampleError>(
                    SampleError::ChunkBounds { end: end as usize, total: samples@.len() as usize },
                )
            } else {
                result matches Ok(out) && out@ == samples@.subrange(chunk.start_sample as int, end)
            }
        },
{
    if chunk_idx >= chunks.len() {
        return Err(SampleError::ChunkIndex(chunk_idx));
    }
    let chunk = chunks[chunk_idx];
    let end: usize = match chunk.start_sample.checked_add(chunk.sample_count) {
        Some(end) => end,
        None => return Err(SampleError::ChunkOverflow),
    };
    if end > samples.len() {
        return Err(SampleError::ChunkBounds { end, total: samples.len() });
    }
    let mut out: Vec<T> = Vec::new();
    crate::values::append_range(&mut out, samples, chunk.start_sample, end);
    assert(out@ =~= samples@.subrange(chunk.start_sample as int, end as int));
    Ok(out)
}

} // verus!
