//! Sample encodings and their conversion to the engine's canonical sample.
//!
//! A canonical sample is a signed 16-bit amplitude held in an `i32`:
//! full scale is 32768. Floating-point samples are read from their
//! IEEE-754 single-precision bit patterns, with 1.0 as full scale.
//!
//! Whatever the encoding, what a caller delivers is an exact number: a
//! whole mantissa times a power of two, counted in steps of the canonical
//! sample. The audio gain is an exact number of the same kind. The gain
//! multiplies what was delivered, exactly; only the product is cut to a
//! canonical sample, toward zero and within the sample range.

use vstd::prelude::*;
use vstd::arithmetic::power2::*;

verus! {

/// Whether `x` lies in the canonical sample range.
pub open spec fn is_sample(x: int) -> bool {
    -32768 <= x <= 32767
}

/// Whether every element of `s` lies in the canonical sample range.
pub open spec fn all_samples(s: Seq<i32>) -> bool {
    forall|i: int| 0 <= i < s.len() ==> is_sample(#[trigger] s[i] as int)
}

/// The magnitude of `x`.
pub open spec fn spec_abs(x: int) -> int {
    if x < 0 { -x } else { x }
}

/// The smaller of two numbers.
pub open spec fn spec_min(a: int, b: int) -> int {
    if a <= b { a } else { b }
}

/// The larger of two numbers.
pub open spec fn spec_max(a: int, b: int) -> int {
    if a >= b { a } else { b }
}

/// The number `mantissa * 2^power`, cut toward zero to a whole number and
/// limited to the range of the canonical sample.
pub open spec fn spec_cut(mantissa: int, power: int) -> int {
    let magnitude = spec_abs(mantissa);
    let whole = if power >= 0 {
        magnitude * pow2(power as nat)
    } else {
        magnitude / (pow2((-power) as nat) as int)
    };
    if mantissa < 0 {
        -spec_min(whole, 32768)
    } else {
        spec_min(whole, 32767)
    }
}

/// Whether `m1 * 2^s1` and `m2 * 2^s2` are the same number.
pub open spec fn same_value(m1: int, s1: int, m2: int, s2: int) -> bool {
    if s1 <= s2 {
        m1 == m2 * pow2((s2 - s1) as nat)
    } else {
        m2 == m1 * pow2((s1 - s2) as nat)
    }
}

/// What is cut is a canonical sample.
pub proof fn lemma_cut_is_sample(mantissa: int, power: int)
    ensures
        is_sample(spec_cut(mantissa, power)),
{
    let magnitude = spec_abs(mantissa);
    if power >= 0 {
        lemma_pow2_pos(power as nat);
        assert(magnitude * pow2(power as nat) >= 0) by (nonlinear_arith)
            requires
                magnitude >= 0,
                pow2(power as nat) > 0,
        ;
    } else {
        let d = pow2((-power) as nat) as int;
        lemma_pow2_pos((-power) as nat);
        assert(magnitude / d >= 0) by (nonlinear_arith)
            requires
                magnitude >= 0,
                d > 0,
        ;
    }
}

/// Cutting depends on the number alone, not on how it is written as a
/// mantissa and a power of two.
pub proof fn lemma_cut_same_value(m1: int, s1: int, m2: int, s2: int)
    requires
        same_value(m1, s1, m2, s2),
    ensures
        spec_cut(m1, s1) == spec_cut(m2, s2),
{
    if s1 <= s2 {
        lemma_cut_finer(m2, s2, (s2 - s1) as nat);
    } else {
        lemma_cut_finer(m1, s1, (s1 - s2) as nat);
    }
}

/// A number written with a mantissa that is finer by `d` binary places is
/// cut to the same sample.
pub proof fn lemma_cut_finer(mantissa: int, power: int, d: nat)
    ensures
        spec_cut(mantissa * pow2(d), power - d) == spec_cut(mantissa, power),
{
    let p = pow2(d) as int;
    lemma_pow2_pos(d);
    let a = spec_abs(mantissa);
    let fine = mantissa * p;
    assert(spec_abs(fine) == a * p && (fine < 0 <==> mantissa < 0)) by (nonlinear_arith)
        requires
            fine == mantissa * p,
            p > 0,
            a == spec_abs(mantissa),
    ;
    let low = power - d;
    if low >= 0 {
        lemma_pow2_adds(d, low as nat);
        let q = pow2(low as nat) as int;
        assert((a * p) * q == a * (p * q)) by (nonlinear_arith);
    } else if power >= 0 {
        let q = pow2(power as nat) as int;
        let r = pow2((-low) as nat) as int;
        lemma_pow2_adds(power as nat, (-low) as nat);
        lemma_pow2_pos((-low) as nat);
        lemma_pow2_pos(power as nat);
        assert(a * p == (a * q) * r) by (nonlinear_arith)
            requires
                p == q * r,
        ;
        assert(a * q >= 0) by (nonlinear_arith)
            requires
                a >= 0,
                q > 0,
        ;
        vstd::arithmetic::div_mod::lemma_div_by_multiple(a * q, r);
    } else {
        let q = pow2((-power) as nat) as int;
        let r = pow2((-low) as nat) as int;
        lemma_pow2_adds(d, (-power) as nat);
        lemma_pow2_pos((-power) as nat);
        assert(r == p * q);
        assert(a * p >= 0) by (nonlinear_arith)
            requires
                a >= 0,
                p > 0,
        ;
        vstd::arithmetic::div_mod::lemma_div_denominator(a * p, p, q);
        vstd::arithmetic::div_mod::lemma_div_by_multiple(a, p);
    }
}

/// Cuts the number `mantissa * 2^power` toward zero to a canonical sample.
pub fn cut(mantissa: i64, power: i32) -> (r: i32)
    ensures
        r == spec_cut(mantissa as int, power as int),
        is_sample(r as int),
{
    proof {
        lemma_cut_is_sample(mantissa as int, power as int);
    }
    let negative: bool = mantissa < 0;
    let magnitude: u64 = if mantissa == i64::MIN {
        0x8000_0000_0000_0000u64
    } else if negative {
        (-mantissa) as u64
    } else {
        mantissa as u64
    };
    let limit: u64 = if negative { 32768 } else { 32767 };
    let whole: u64 = if power >= 0 {
        proof {
            lemma_pow2_pos(power as nat);
        }
        if magnitude == 0 {
            assert(magnitude * pow2(power as nat) == 0) by (nonlinear_arith)
                requires
                    magnitude == 0,
            ;
            0
        } else if magnitude > 32768 || power >= 16 {
            proof {
                lemma2_to64();
                if power > 16 {
                    lemma_pow2_strictly_increases(16, power as nat);
                }
                assert(magnitude * pow2(power as nat) > 32768) by (nonlinear_arith)
                    requires
                        magnitude >= 1,
                        pow2(power as nat) >= 1,
                        magnitude > 32768 || pow2(power as nat) >= 65536,
                ;
            }
            limit
        } else {
            proof {
                lemma2_to64();
                if power < 15 {
                    lemma_pow2_strictly_increases(power as nat, 15);
                }
                assert(magnitude * pow2(power as nat) <= 32768 * 32768) by (nonlinear_arith)
                    requires
                        0 <= magnitude <= 32768,
                        0 <= pow2(power as nat) <= 32768,
                ;
                vstd::bits::lemma_u64_shl_is_mul(magnitude, power as u64);
            }
            magnitude << (power as u64)
        }
    } else if power <= -64 {
        proof {
            lemma2_to64();
            if power < -64 {
                lemma_pow2_strictly_increases(64, (-power) as nat);
            }
            vstd::arithmetic::div_mod::lemma_basic_div(
                magnitude as int,
                pow2((-power) as nat) as int,
            );
        }
        0
    } else {
        let down: u64 = (-power) as u64;
        proof {
            vstd::bits::lemma_u64_shr_is_div(magnitude, down);
        }
        magnitude >> down
    };
    let limited: u64 = if whole > limit { limit } else { whole };
    if negative {
        -(limited as i32)
    } else {
        limited as i32
    }
}

/// What a caller delivers as one sample: the exact number
/// `mantissa * 2^power`, counted in steps of the canonical sample.
pub struct Raw {
    pub mantissa: int,
    pub power: int,
}

/// An unsigned 8-bit sample, centred on 128, as a canonical sample.
pub open spec fn spec_from_u8(x: u8) -> int {
    (x - 128) * 256
}

/// A signed 16-bit sample as a canonical sample.
pub open spec fn spec_from_i16(x: i16) -> int {
    x as int
}

/// A signed 32-bit sample as a canonical sample: the sample divided by
/// 65536, cut toward zero.
pub open spec fn spec_from_i32(x: i32) -> int {
    spec_cut(x as int, -16)
}

/// What an unsigned 8-bit sample delivers.
pub open spec fn raw_u8(x: u8) -> Raw {
    Raw { mantissa: spec_from_u8(x), power: 0 }
}

/// What a signed 16-bit sample delivers.
pub open spec fn raw_i16(x: i16) -> Raw {
    Raw { mantissa: x as int, power: 0 }
}

/// What a signed 32-bit sample delivers: full scale is 2^31.
pub open spec fn raw_i32(x: i32) -> Raw {
    Raw { mantissa: x as int, power: -16 }
}

/// Converts an unsigned 8-bit sample.
pub fn from_u8(x: u8) -> (r: i32)
    ensures
        r == spec_from_u8(x),
        is_sample(r as int),
{
    (x as i32 - 128) * 256
}

/// Converts a signed 16-bit sample.
pub fn from_i16(x: i16) -> (r: i32)
    ensures
        r == spec_from_i16(x),
        is_sample(r as int),
{
    x as i32
}

/// Converts a signed 32-bit sample.
pub fn from_i32(x: i32) -> (r: i32)
    ensures
        r == spec_from_i32(x),
        is_sample(r as int),
{
    cut(x as i64, -16)
}

/// Whether the sign bit of a single-precision bit pattern is set.
pub open spec fn f32_negative(bits: u32) -> bool {
    bits >= 0x8000_0000
}

/// The biased exponent field of a single-precision bit pattern.
pub open spec fn f32_exponent(bits: u32) -> int {
    ((bits as int) / 0x80_0000) % 256
}

/// The fraction field of a single-precision bit pattern.
pub open spec fn f32_fraction(bits: u32) -> int {
    (bits as int) % 0x80_0000
}

/// Whether the bit pattern is a number: neither an infinity nor a NaN.
pub open spec fn f32_finite(bits: u32) -> bool {
    f32_exponent(bits) != 255
}

/// The integer significand `m` of a finite pattern, whose magnitude is
/// `m * 2^(f32_power(bits) - 150)`.
pub open spec fn f32_significand(bits: u32) -> int {
    if f32_exponent(bits) == 0 {
        f32_fraction(bits)
    } else {
        0x80_0000 + f32_fraction(bits)
    }
}

/// The power `p` of a finite pattern, whose magnitude is
/// `f32_significand(bits) * 2^(p - 150)`.
pub open spec fn f32_power(bits: u32) -> int {
    if f32_exponent(bits) == 0 {
        1
    } else {
        f32_exponent(bits)
    }
}

/// The significand of a finite pattern with its sign.
pub open spec fn f32_signed_significand(bits: u32) -> int {
    if f32_negative(bits) {
        -f32_significand(bits)
    } else {
        f32_significand(bits)
    }
}

/// What a single-precision sample delivers, with 1.0 as full scale; `None`
/// for an infinity or a NaN.
pub open spec fn raw_f32(bits: u32) -> Option<Raw> {
    if f32_finite(bits) {
        Some(Raw { mantissa: f32_signed_significand(bits), power: f32_power(bits) - 135 })
    } else {
        None
    }
}

/// A single-precision sample, with 1.0 as full scale, as a canonical sample;
/// `None` for an infinity or a NaN. Values beyond full scale are limited to it.
pub open spec fn spec_from_f32_bits(bits: u32) -> Option<int> {
    match raw_f32(bits) {
        Some(raw) => Some(spec_cut(raw.mantissa, raw.power)),
        None => None,
    }
}

/// Reads the signed significand and the power of a bit pattern.
fn f32_parts(bits: u32) -> (r: (i64, i32))
    ensures
        r.0 == f32_signed_significand(bits),
        r.1 == f32_power(bits),
        -0x100_0000 < r.0 < 0x100_0000,
        1 <= r.1 <= 255,
{
    let exponent: u32 = (bits / 0x80_0000) % 256;
    let fraction: u32 = bits % 0x80_0000;
    let significand: i64 = if exponent == 0 {
        fraction as i64
    } else {
        0x80_0000i64 + fraction as i64
    };
    let power: i32 = if exponent == 0 { 1 } else { exponent as i32 };
    if bits >= 0x8000_0000 {
        (-significand, power)
    } else {
        (significand, power)
    }
}

/// Converts a single-precision sample given by its bit pattern.
pub fn from_f32_bits(bits: u32) -> (r: Option<i32>)
    ensures
        r is Some <==> f32_finite(bits),
        match r {
            Some(v) => spec_from_f32_bits(bits) == Some(v as int) && is_sample(v as int),
            None => spec_from_f32_bits(bits) is None,
        },
{
    let (mantissa, power) = f32_parts(bits);
    if power == 255 {
        None
    } else {
        Some(cut(mantissa, power - 135))
    }
}

/// A fixed gain applied to every sample: a number that is not negative,
/// held exactly as the single-precision number that it was given as.
#[derive(Debug, Clone, Copy, PartialEq, Eq, Structural)]
pub struct Gain {
    bits: u32,
}

impl Gain {
    /// The bit pattern of the single-precision number that the gain was
    /// given as.
    pub closed spec fn spec_bits(self) -> u32 {
        self.bits
    }

    /// The significand of the gain: the gain is
    /// `significand * 2^(power - 150)`.
    pub open spec fn significand(self) -> int {
        f32_significand(self.spec_bits())
    }

    /// The power of the gain: the gain is `significand * 2^(power - 150)`.
    pub open spec fn power(self) -> int {
        f32_power(self.spec_bits())
    }

    /// The gain 1, which leaves every sample as it is.
    pub closed spec fn spec_unity() -> Gain {
        Gain { bits: 0x3f80_0000 }
    }

    /// Whether a bit pattern stands for a gain: a number that is not
    /// negative.
    pub open spec fn is_gain(bits: u32) -> bool {
        f32_finite(bits) && !(f32_negative(bits) && f32_significand(bits) > 0)
    }

    /// What was delivered, times this gain, as a canonical sample: the
    /// product is exact, and only the product is cut.
    pub open spec fn spec_scale(self, raw: Raw) -> int {
        spec_cut(raw.mantissa * self.significand(), raw.power + self.power() - 150)
    }

    /// The canonical sample `x` under this gain.
    pub open spec fn spec_apply(self, x: int) -> int {
        self.spec_scale(Raw { mantissa: x, power: 0 })
    }

    /// The significand and the power of a gain lie in their ranges.
    pub proof fn lemma_range(self)
        ensures
            0 <= self.significand() < 0x100_0000,
            1 <= self.power() <= 255,
    {
    }

    /// The gain 1 is given as 1.0, which is `2^23 * 2^(127 - 150)`.
    pub proof fn lemma_unity()
        ensures
            Self::spec_unity().spec_bits() == 0x3f80_0000,
            Self::spec_unity().significand() == 0x80_0000,
            Self::spec_unity().power() == 127,
    {
    }

    /// Returns the gain 1, which leaves every sample as it is.
    pub fn unity() -> (g: Gain)
        ensures
            g == Self::spec_unity(),
    {
        Gain { bits: 0x3f80_0000 }
    }

    /// Reads a gain from the bit pattern of a single-precision number, and
    /// keeps the number as it is. An infinity, a NaN and a negative number
    /// are no gain.
    pub fn from_f32_bits(bits: u32) -> (g: Option<Gain>)
        ensures
            g is Some <==> Self::is_gain(bits),
            g matches Some(gain) ==> gain.spec_bits() == bits,
    {
        let (mantissa, power) = f32_parts(bits);
        if power == 255 || mantissa < 0 {
            None
        } else {
            Some(Gain { bits })
        }
    }

    /// Returns the bit pattern of the single-precision number that the gain
    /// was given as.
    pub fn to_f32_bits(&self) -> (bits: u32)
        ensures
            bits == self.spec_bits(),
    {
        self.bits
    }

    /// Multiplies the number `mantissa * 2^power` by the gain and cuts the
    /// product to a canonical sample.
    fn scale(&self, mantissa: i64, power: i32) -> (r: i32)
        requires
            -0x1_0000_0000 <= mantissa <= 0x1_0000_0000,
            -1000 <= power <= 1000,
        ensures
            r == self.spec_scale(Raw { mantissa: mantissa as int, power: power as int }),
            is_sample(r as int),
    {
        let (significand, gain_power) = f32_parts(self.bits);
        let factor: i64 = if significand < 0 { -significand } else { significand };
        assert(-0x1_0000_0000 * 0x100_0000 <= mantissa * factor <= 0x1_0000_0000 * 0x100_0000)
            by (nonlinear_arith)
            requires
                -0x1_0000_0000 <= mantissa <= 0x1_0000_0000,
                0 <= factor < 0x100_0000,
        ;
        cut(mantissa * factor, power + gain_power - 150)
    }

    /// Applies the gain to one canonical sample.
    pub fn apply(&self, x: i32) -> (r: i32)
        requires
            is_sample(x as int),
        ensures
            r == self.spec_apply(x as int),
            is_sample(r as int),
    {
        self.scale(x as i64, 0)
    }

    /// Applies the gain to an unsigned 8-bit sample.
    pub fn scale_u8(&self, x: u8) -> (r: i32)
        ensures
            r == self.spec_scale(raw_u8(x)),
            is_sample(r as int),
    {
        self.scale((x as i64 - 128) * 256, 0)
    }

    /// Applies the gain to a signed 16-bit sample.
    pub fn scale_i16(&self, x: i16) -> (r: i32)
        ensures
            r == self.spec_scale(raw_i16(x)),
            is_sample(r as int),
    {
        self.scale(x as i64, 0)
    }

    /// Applies the gain to a signed 32-bit sample, at its full precision.
    pub fn scale_i32(&self, x: i32) -> (r: i32)
        ensures
            r == self.spec_scale(raw_i32(x)),
            is_sample(r as int),
    {
        self.scale(x as i64, -16)
    }

    /// Applies the gain to a single-precision sample, at its full
    /// precision; `None` for an infinity or a NaN.
    pub fn scale_f32_bits(&self, bits: u32) -> (r: Option<i32>)
        ensures
            r is Some <==> f32_finite(bits),
            r matches Some(v) ==> v == self.spec_scale(raw_f32(bits)->0) && is_sample(v as int),
    {
        let (mantissa, power) = f32_parts(bits);
        if power == 255 {
            None
        } else {
            Some(self.scale(mantissa, power - 135))
        }
    }
}

/// Under the gain 1 what was delivered is cut as it is.
pub proof fn lemma_unity_scale(raw: Raw)
    ensures
        Gain::spec_unity().spec_scale(raw) == spec_cut(raw.mantissa, raw.power),
{
    Gain::lemma_unity();
    lemma2_to64();
    assert(pow2(23) == 0x80_0000) by {
        lemma_pow2_adds(16, 7);
    }
    lemma_cut_finer(raw.mantissa, raw.power, 23);
}

/// The gain 1 changes no canonical sample.
pub proof fn lemma_unity_gain_is_identity(x: int)
    requires
        is_sample(x),
    ensures
        Gain::spec_unity().spec_apply(x) == x,
{
    lemma_unity_scale(Raw { mantissa: x, power: 0 });
    lemma2_to64();
    assert(spec_abs(x) * pow2(0) == spec_abs(x));
}

/// A sample that is the gain times another, exactly, is under the gain 1
/// what the other is under the gain.
pub proof fn lemma_gain_in_sample(gain: Gain, raw: Raw, scaled: Raw)
    requires
        same_value(
            scaled.mantissa,
            scaled.power,
            raw.mantissa * gain.significand(),
            raw.power + gain.power() - 150,
        ),
    ensures
        Gain::spec_unity().spec_scale(scaled) == gain.spec_scale(raw),
{
    lemma_unity_scale(scaled);
    lemma_cut_same_value(
        scaled.mantissa,
        scaled.power,
        raw.mantissa * gain.significand(),
        raw.power + gain.power() - 150,
    );
}

} // verus!
