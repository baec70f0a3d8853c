//! Half-precision conversions on the bit patterns of single-precision values.
//!
//! A single-precision value is represented by the 32-bit pattern of its IEEE 754 encoding; a
//! half-precision or bfloat16 value by its 16-bit pattern.
use vstd::arithmetic::power2::{lemma2_to64, lemma_pow2_pos, lemma_pow2_strictly_increases,
    lemma_pow2_unfold, pow2};
use vstd::prelude::*;

verus! {

/// The largest pattern of a finite positive single-precision value, plus one.
pub const INFINITY_BITS: u32 = 0x7f80_0000;

/// Whether the pattern denotes a finite value: its exponent field is not all ones.
pub open spec fn is_finite_bits(b: u32) -> bool {
    b % 2147483648 < INFINITY_BITS
}

/// Whether the pattern denotes a finite value.
pub fn finite_bits(b: u32) -> (r: bool)
    ensures
        r == is_finite_bits(b),
{
    b % 2147483648 < INFINITY_BITS
}

/// Whether the pattern denotes an infinity or no number.
pub fn non_finite_bits(b: u32) -> (r: bool)
    ensures
        r == !is_finite_bits(b),
{
    !finite_bits(b)
}

/// Whether the pattern denotes a finite value greater than zero.
pub fn finite_positive_bits(b: u32) -> (r: bool)
    ensures
        r == (0 < b < INFINITY_BITS),
{
    0 < b && b < INFINITY_BITS
}

/// The pattern itself where it denotes a finite value, else that of zero.
pub open spec fn finite_part(b: u32) -> u32 {
    if is_finite_bits(b) {
        b
    } else {
        0
    }
}

/// The pattern itself where it denotes a finite value, else that of zero.
pub fn finite_or_zero(b: u32) -> (r: u32)
    ensures
        r == finite_part(b),
{
    if finite_bits(b) {
        b
    } else {
        0
    }
}

/// Replaces every value that is not finite by zero.
pub fn sanitize_finite_inplace(values: &mut Vec<u32>)
    ensures
        final(values)@ == old(values)@.map_values(|b: u32| finite_part(b)),
{
    let mut i: usize = 0;
    while i < values.len()
        invariant
            i <= values@.len() == old(values)@.len(),
            forall|j: int| 0 <= j < i ==> #[trigger] values@[j] == finite_part(old(values)@[j]),
            forall|j: int| i <= j < values@.len() ==> #[trigger] values@[j] == old(values)@[j],
        decreases values.len() - i,
    {
        let value: u32 = finite_or_zero(values[i]);
        values.set(i, value);
        i = i + 1;
    }
    assert(values@ =~= old(values)@.map_values(|b: u32| finite_part(b)));
}

/// Whether the pattern denotes a value that is not a number.
pub open spec fn is_nan_bits(b: u32) -> bool {
    b % 2147483648 > INFINITY_BITS
}

/// A number that orders like the value of the pattern, zero of either sign as zero.
pub open spec fn order_of(b: u32) -> int {
    if b < 2147483648 {
        b as int
    } else {
        2147483648 - b
    }
}

/// A number that orders like the value of the pattern.
pub fn order_key(b: u32) -> (key: i64)
    ensures
        key == order_of(b),
{
    if b < 2147483648 {
        b as i64
    } else {
        2147483648 - b as i64
    }
}

/// Whether the value of one pattern is less than that of another; nothing is less than a value
/// that is not a number, nor is that less than anything.
pub open spec fn is_less(a: u32, b: u32) -> bool {
    !is_nan_bits(a) && !is_nan_bits(b) && order_of(a) < order_of(b)
}

/// Whether the value of one pattern is less than that of another.
pub fn less_bits(a: u32, b: u32) -> (less: bool)
    ensures
        less == is_less(a, b),
{
    a % 2147483648 <= INFINITY_BITS && b % 2147483648 <= INFINITY_BITS && order_key(a) < order_key(
        b,
    )
}

/// `m / d` rounded to the nearest integer, ties to the even one.
pub open spec fn round_even(m: int, d: int) -> int {
    let q = m / d;
    let r = m % d;
    if 2 * r > d || (2 * r == d && q % 2 == 1) {
        q + 1
    } else {
        q
    }
}

/// The sign bit of a single-precision pattern.
pub open spec fn sign_of(b: u32) -> int {
    b as int / 2147483648
}

/// The exponent field of a single-precision pattern.
pub open spec fn exponent_of(b: u32) -> int {
    b as int / 8388608 % 256
}

/// The mantissa field of a single-precision pattern.
pub open spec fn mantissa_of(b: u32) -> int {
    b as int % 8388608
}

/// The half-precision magnitude of the single-precision value with exponent field `e` and
/// mantissa field `m`: rounded to nearest even, infinity above the range, zero for unbiased
/// exponents below `lowest`.
pub open spec fn half_finite(e: int, m: int, lowest: int) -> int {
    let u = e - 127;
    if u > 15 {
        0x7c00
    } else if u < lowest {
        0
    } else if u < -14 {
        round_even(m + 0x80_0000, pow2((-1 - u) as nat) as int)
    } else {
        (u + 15) * 1024 + round_even(m, 8192)
    }
}

/// The half-precision pattern sent over the wire for a single-precision pattern.
pub open spec fn wire_half(b: u32) -> int {
    let e = exponent_of(b);
    let m = mantissa_of(b);
    sign_of(b) * 0x8000 + if e == 255 {
        0x7c00 + if m != 0 && m / 8192 == 0 {
            1
        } else {
            m / 8192
        }
    } else {
        half_finite(e, m, -25)
    }
}

/// The half-precision pattern that encoder activations are rounded to.
pub open spec fn activation_half(b: u32) -> int {
    let e = exponent_of(b);
    let m = mantissa_of(b);
    sign_of(b) * 0x8000 + if e == 255 {
        0x7c00 + if m != 0 && m / 8192 < 512 {
            m / 8192 + 512
        } else {
            m / 8192
        }
    } else {
        half_finite(e, m, -24)
    }
}

/// The bfloat16 pattern sent over the wire: the upper half, rounded to nearest even.
pub open spec fn wire_bfloat(b: u32) -> int {
    round_even(b as int, 65536) % 65536
}

/// The single-precision pattern of a bfloat16 pattern.
pub open spec fn bfloat_widened(h: u16) -> int {
    h as int * 65536
}

/// The single-precision pattern that encoder activations are rounded to as bfloat16; a value
/// that is not a number stays one.
pub open spec fn activation_bfloat(b: u32) -> int {
    let hi = b as int / 65536;
    if b as int % 2147483648 > INFINITY_BITS {
        (if hi / 64 % 2 == 1 {
            hi
        } else {
            hi + 64
        }) * 65536
    } else {
        round_even(b as int, 65536) * 65536
    }
}

/// Scales a subnormal significand up until its leading bit is explicit, lowering the exponent.
pub open spec fn normalised(v: int, e: int) -> int
    decreases 2048 - v,
{
    if v <= 0 || v >= 1024 {
        e * 8388608 + (v - 1024) * 8192
    } else {
        normalised(2 * v, e - 1)
    }
}

/// The single-precision pattern of a half-precision pattern.
pub open spec fn half_widened(h: u16) -> int {
    let e = h as int / 1024 % 32;
    let m = h as int % 1024;
    (h as int / 32768) * 2147483648 + if e == 31 {
        INFINITY_BITS + m * 8192
    } else if e > 0 {
        (e + 112) * 8388608 + m * 8192
    } else if m == 0 {
        0
    } else {
        normalised(m, 113)
    }
}

fn power(k: u32) -> (d: u32)
    requires
        k <= 24,
    ensures
        d == pow2(k as nat),
{
    let mut d: u32 = 1;
    let mut i: u32 = 0;
    proof {
        lemma2_to64();
    }
    while i < k
        invariant
            i <= k <= 24,
            d == pow2(i as nat),
        decreases k - i,
    {
        proof {
            lemma2_to64();
            lemma_pow2_unfold((i + 1) as nat);
            lemma_pow2_strictly_increases((i + 1) as nat, 25);
        }
        d = d * 2;
        i = i + 1;
    }
    d
}

fn divide_even(m: u32, d: u32) -> (r: u32)
    requires
        1 < d <= 0x100_0000,
        m < 0x8000_0000,
    ensures
        r == round_even(m as int, d as int),
        r <= m / d + 1,
{
    let q: u32 = m / d;
    let rest: u32 = m % d;
    proof {
        assert(q <= m) by (nonlinear_arith)
            requires
                q == m / d,
                d > 0,
        ;
    }
    if 2 * rest > d || (2 * rest == d && q % 2 == 1) {
        q + 1
    } else {
        q
    }
}

fn finite_half(e: u32, m: u32, lowest: i32) -> (r: u16)
    requires
        e < 255,
        m < 0x80_0000,
        -25 <= lowest <= -14,
    ensures
        r == half_finite(e as int, m as int, lowest as int),
        r <= 0x7c00,
{
    let u: i32 = e as i32 - 127;
    if u > 15 {
        0x7c00
    } else if u < lowest {
        0
    } else if u < -14 {
        let shift: u32 = (-1 - u) as u32;
        let d: u32 = power(shift);
        proof {
            lemma2_to64();
            if shift > 14 {
                lemma_pow2_strictly_increases(14, shift as nat);
            }
            if shift < 24 {
                lemma_pow2_strictly_increases(shift as nat, 24);
            }
        }
        let r: u32 = divide_even(m + 0x80_0000, d);
        proof {
            assert((m + 0x80_0000) / d as int <= 1024) by (nonlinear_arith)
                requires
                    0 <= m < 0x80_0000,
                    d >= 16384,
            ;
        }
        r as u16
    } else {
        let r: u32 = divide_even(m, 8192);
        ((u + 15) as u32 * 1024 + r) as u16
    }
}

/// Encodes a single-precision pattern as a half-precision pattern for the wire.
pub fn encode_fp32_scalar_to_fp16_bits(bits: u32) -> (h: u16)
    ensures
        h == wire_half(bits),
{
    let sign: u16 = if bits >= 0x8000_0000 { 0x8000 } else { 0 };
    let exp: u32 = bits / 0x80_0000 % 256;
    let mant: u32 = bits % 0x80_0000;
    if exp == 255 {
        let payload: u16 = (mant / 8192) as u16;
        if mant != 0 && payload == 0 {
            sign + 0x7c00 + 1
        } else {
            sign + 0x7c00 + payload
        }
    } else {
        sign + finite_half(exp, mant, -25)
    }
}

/// Encodes a single-precision pattern as the half-precision pattern of an encoder activation.
pub fn f32_to_f16_bits(bits: u32) -> (h: u16)
    ensures
        h == activation_half(bits),
{
    let sign: u16 = if bits >= 0x8000_0000 { 0x8000 } else { 0 };
    let exp: u32 = bits / 0x80_0000 % 256;
    let mant: u32 = bits % 0x80_0000;
    if exp == 255 {
        let payload: u16 = (mant / 8192) as u16;
        if mant != 0 && payload < 512 {
            sign + 0x7c00 + 512 + payload
        } else {
            sign + 0x7c00 + payload
        }
    } else {
        sign + finite_half(exp, mant, -24)
    }
}

/// Encodes a single-precision pattern as a bfloat16 pattern for the wire.
pub fn encode_fp32_scalar_to_bf16_bits(bits: u32) -> (h: u16)
    ensures
        h == wire_bfloat(bits),
{
    let odd: u32 = bits / 65536 % 2;
    let biased: u32 = bits.wrapping_add(odd + 0x7fff);
    (biased / 65536) as u16
}

/// Widens a bfloat16 pattern.
pub fn bf16_to_fp32(h: u16) -> (bits: u32)
    ensures
        bits == bfloat_widened(h),
{
    h as u32 * 65536
}

/// Widens a half-precision pattern.
pub fn fp16_to_fp32(h: u16) -> (bits: u32)
    ensures
        bits == half_widened(h),
{
    let sign: u32 = if h >= 0x8000 { 0x8000_0000 } else { 0 };
    let e: u32 = (h / 1024 % 32) as u32;
    let m: u32 = (h % 1024) as u32;
    if e == 31 {
        sign + INFINITY_BITS + m * 8192
    } else if e > 0 {
        sign + (e + 112) * 8388608 + m * 8192
    } else if m == 0 {
        sign
    } else {
        let mut v: u32 = m;
        let mut exp: u32 = 113;
        proof {
            lemma2_to64();
            assert(m * pow2(10) >= 1024) by (nonlinear_arith)
                requires
                    m >= 1,
                    pow2(10) == 1024,
            ;
        }
        while v < 1024
            invariant
                0 < v < 2048,
                0 < exp <= 113,
                v * pow2((exp - 103) as nat) >= 1024,
                exp >= 103,
                normalised(m as int, 113) == normalised(v as int, exp as int),
            decreases 2048 - v,
        {
            proof {
                lemma2_to64();
                if exp == 103 {
                    assert(false) by (nonlinear_arith)
                        requires
                            v < 1024,
                            v * pow2(0) >= 1024,
                            pow2(0) == 1,
                    ;
                }
                lemma_pow2_unfold((exp - 103) as nat);
                let p = pow2((exp - 104) as nat) as int;
                assert(v * (2 * p) == (2 * v) * p) by (nonlinear_arith);
            }
            v = v * 2;
            exp = exp - 1;
        }
        sign + exp * 8388608 + (v - 1024) * 8192
    }
}

/// Rounds a single-precision pattern to half precision, as encoder activations are.
pub fn round_to_f16(bits: u32) -> (r: u32)
    ensures
        r == half_widened(activation_half(bits) as u16),
{
    fp16_to_fp32(f32_to_f16_bits(bits))
}

/// Rounds a single-precision pattern to bfloat16, as encoder activations are.
pub fn round_to_bf16(bits: u32) -> (r: u32)
    ensures
        r == activation_bfloat(bits),
{
    let hi: u32 = bits / 65536;
    let rounded: u32 = if bits % 0x8000_0000 > INFINITY_BITS {
        if hi / 64 % 2 == 1 {
            hi
        } else {
            hi + 64
        }
    } else {
        (bits + (0x7fff + hi % 2)) / 65536
    };
    rounded * 65536
}

proof fn lemma_round_even_exact(m: int, d: int)
    requires
        m >= 0,
        d > 0,
    ensures
        round_even(m * d, d) == m,
{
    vstd::arithmetic::div_mod::lemma_div_multiples_vanish(m, d);
    vstd::arithmetic::div_mod::lemma_mod_multiples_basic(m, d);
    assert(m * d == d * m) by (nonlinear_arith);
}

proof fn lemma_normalised(m: int, v: int, e: int)
    requires
        0 < m < 1024,
        0 < v < 2048,
        103 <= e <= 113,
        v == m * pow2((113 - e) as nat),
        e <= 112 || v < 1024,
        v * pow2((e - 103) as nat) >= 1024,
    ensures
        ({
            let r = normalised(v, e);
            &&& 103 <= r / 8388608 <= 112
            &&& 0 <= r < 2147483648
            &&& half_finite(r / 8388608, r % 8388608, -25) == m
            &&& half_finite(r / 8388608, r % 8388608, -24) == m
        }),
    decreases 2048 - v,
{
    lemma2_to64();
    if v >= 1024 {
        let s = (113 - e) as nat;
        let r = normalised(v, e);
        assert(r / 8388608 == e && r % 8388608 == (v - 1024) * 8192);
        vstd::arithmetic::power2::lemma_pow2_adds(13, s);
        let p = pow2(s) as int;
        let d = pow2((13 + s) as nat) as int;
        assert(m * d == v * 8192) by (nonlinear_arith)
            requires
                v == m * p,
                d == 8192 * p,
        ;
        lemma_pow2_pos((13 + s) as nat);
        lemma_round_even_exact(m, d);
    } else {
        if e == 103 {
            assert(false) by (nonlinear_arith)
                requires
                    v < 1024,
                    v * pow2(0) >= 1024,
                    pow2(0) == 1,
            ;
        }
        lemma_pow2_unfold((e - 103) as nat);
        let p = pow2((e - 104) as nat) as int;
        assert(v * (2 * p) == (2 * v) * p) by (nonlinear_arith);
        lemma_pow2_unfold((114 - e) as nat);
        let q = pow2((113 - e) as nat) as int;
        assert(2 * (m * q) == m * (2 * q)) by (nonlinear_arith);
        lemma_normalised(m, 2 * v, e - 1);
    }
}

/// The half-precision pattern of any value fits 16 bits.
pub proof fn wire_half_fits(b: u32)
    ensures
        0 <= wire_half(b) <= u16::MAX,
{
    let e = exponent_of(b);
    let m = mantissa_of(b);
    let u = e - 127;
    if e < 255 && -25 <= u < -14 {
        let k = (-1 - u) as nat;
        lemma2_to64();
        if k > 14 {
            lemma_pow2_strictly_increases(14, k);
        }
        let d = pow2(k) as int;
        assert(0 <= (m + 0x80_0000) / d <= 1024) by (nonlinear_arith)
            requires
                0 <= m < 0x80_0000,
                d >= 16384,
        ;
    }
}

proof fn lemma_fields(sign: int, w: int)
    requires
        0 <= sign <= 1,
        0 <= w < 2147483648,
    ensures
        ({
            let b = (sign * 2147483648 + w) as u32;
            &&& b == sign * 2147483648 + w
            &&& sign_of(b) == sign
            &&& exponent_of(b) == w / 8388608
            &&& mantissa_of(b) == w % 8388608
        }),
{
}

/// Every half-precision pattern survives widening and re-encoding for the wire.
pub proof fn half_survives_widening(h: u16)
    ensures
        0 <= half_widened(h) <= u32::MAX,
        wire_half(half_widened(h) as u32) == h,
{
    let sign = h as int / 32768;
    let e = h as int / 1024 % 32;
    let m = h as int % 1024;
    let w = half_widened(h) - sign * 2147483648;
    assert(h == sign * 32768 + e * 1024 + m);
    if e == 31 {
        assert(w == INFINITY_BITS + m * 8192);
        lemma_fields(sign, w);
        assert(w / 8388608 == 255 && w % 8388608 == m * 8192);
    } else if e > 0 {
        assert(w == (e + 112) * 8388608 + m * 8192);
        lemma_fields(sign, w);
        assert(w / 8388608 == e + 112 && w % 8388608 == m * 8192);
        lemma_round_even_exact(m, 8192);
        assert(half_finite(e + 112, m * 8192, -25) == e * 1024 + m);
    } else if m > 0 {
        lemma2_to64();
        assert(m * pow2(10) >= 1024) by (nonlinear_arith)
            requires
                m >= 1,
                pow2(10) == 1024,
        ;
        assert(m == m * pow2(0)) by (nonlinear_arith)
            requires
                pow2(0) == 1,
        ;
        lemma_normalised(m, m, 113);
        assert(w == normalised(m, 113));
        lemma_fields(sign, w);
    } else {
        assert(w == 0);
        lemma_fields(sign, w);
    }
}

/// Every bfloat16 pattern survives widening and re-encoding for the wire.
pub proof fn bfloat_survives_widening(h: u16)
    ensures
        0 <= bfloat_widened(h) <= u32::MAX,
        wire_bfloat(bfloat_widened(h) as u32) == h,
{
    lemma_round_even_exact(h as int, 65536);
}

/// Rounding a finite or infinite value to bfloat16 changes it by at most half a unit in the
/// last place of the upper half.
pub proof fn bfloat_rounding_is_nearest(b: u32)
    requires
        b % 2147483648 <= INFINITY_BITS,
    ensures
        -32768 <= activation_bfloat(b) - b <= 32768,
        activation_bfloat(b) % 65536 == 0,
{
}

/// Half precision is rounded to the nearest value, halfway cases to the even one: beyond its range
/// stands infinity, and within its normal range the error is at most half a unit in the last place.
pub proof fn half_rounding_is_nearest(b: u32)
    requires
        b % 2147483648 <= INFINITY_BITS,
    ensures
        ({
            let size = b as int % 2147483648;
            let sign = b as int / 2147483648;
            let half = wire_half(b) - 32768 * sign;
            &&& activation_half(b) == wire_half(b) || size < 0x33800000
            &&& 0 <= half <= 0x7c00
            &&& size >= 0x477ff000 ==> half == 0x7c00
            &&& 0x38800000 <= size < 0x477ff000 ==> ({
                let back = half_widened(half as u16);
                &&& -4096 <= back - size <= 4096
                &&& (back - size == 4096 || back - size == -4096) ==> half % 2 == 0
            })
            &&& size < 0x33000000 ==> half == 0
        }),
{
    let size = b as int % 2147483648;
    let e = exponent_of(b);
    let m = mantissa_of(b);
    assert(size == e * 8388608 + m);
    wire_half_fits(b);
    let u = e - 127;
    lemma2_to64();
    if e < 255 && -25 <= u < -14 {
        let k = (-1 - u) as nat;
        if k > 14 {
            lemma_pow2_strictly_increases(14, k);
        }
        let d = pow2(k) as int;
        assert(0 <= (m + 0x80_0000) / d <= 1024) by (nonlinear_arith)
            requires
                0 <= m < 0x80_0000,
                d >= 16384,
        ;
        if k == 24 {
            assert(d == 16777216);
        }
    }
}

/// Below its normal range half precision counts in steps of one fixed size; the nearest multiple is
/// taken, of two equally near the even one.
pub proof fn small_halves_are_nearest(b: u32)
    requires
        0x33000000 <= b < 0x38800000,
    ensures
        ({
            let step = pow2((126 - b as int / 8388608) as nat) as int;
            let size = 8388608 + b as int % 8388608;
            let half = wire_half(b);
            &&& -step <= 2 * (half * step - size) <= step
            &&& (2 * (half * step - size) == step || 2 * (half * step - size) == -step) ==> half % 2
                == 0
        }),
{
    let e = exponent_of(b);
    let m = mantissa_of(b);
    let size = 8388608 + m;
    let k = (126 - e) as nat;
    let step = pow2(k) as int;
    lemma_pow2_pos(k);
    let q = size / step;
    let r = size % step;
    vstd::arithmetic::div_mod::lemma_fundamental_div_mod(size, step);
    assert(size == q * step + r) by (nonlinear_arith)
        requires
            size == step * q + r,
    ;
    assert((q + 1) * step == q * step + step) by (nonlinear_arith);
    assert(wire_half(b) == round_even(size, step));
}

/// Patterns are ordered like their values: of two values without a sign the larger pattern is the
/// larger, and a sign turns the order around. A zero with a sign is as large as one without.
pub proof fn patterns_are_ordered_like_their_values(a: u32, b: u32)
    requires
        a < 0x8000_0000,
        b < 0x8000_0000,
    ensures
        order_of(a) < order_of(b) <==> a < b,
        order_of((a + 0x8000_0000) as u32) < order_of((b + 0x8000_0000) as u32) <==> b < a,
        order_of((a + 0x8000_0000) as u32) < order_of(b) <==> a > 0 || b > 0,
        order_of((a + 0x8000_0000) as u32) == order_of(b) <==> a == 0 && b == 0,
        is_less(a, b) <==> a < b && b <= 0x7f80_0000,
{
}

/// What is kept of a pattern is the pattern itself, or zero where all bits of its exponent are set.
pub proof fn finite_patterns_are_kept(b: u32)
    ensures
        finite_part(b) == if (b as int / 0x80_0000) % 256 == 255 {
            0
        } else {
            b
        },
{
}

} // verus!
