//! Numeric values and the arithmetic of `Increment` and `Decrement`.

use vstd::arithmetic::div_mod::{
    lemma_fundamental_div_mod, lemma_mod_bound, lemma_mod_multiples_vanish, lemma_small_mod,
};
use vstd::arithmetic::power2::{
    lemma2_to64, lemma2_to64_rest, lemma_pow2_adds, lemma_pow2_pos, lemma_pow2_strictly_increases,
    lemma_pow2_unfold, pow2,
};
use vstd::prelude::*;

verus! {

/// The number of values of a 64-bit integer.
pub open spec fn range_64() -> int {
    0x1_0000_0000_0000_0000
}

/// The signed 64-bit integer congruent to `x` modulo 2^64.
pub open spec fn wrap_i64(x: int) -> i64 {
    let m = x % range_64();
    if m > i64::MAX {
        (m - range_64()) as i64
    } else {
        m as i64
    }
}

/// The unsigned 64-bit integer congruent to `x` modulo 2^64.
pub open spec fn wrap_u64(x: int) -> u64 {
    (x % range_64()) as u64
}

/// The signed 64-bit integer nearest to `x`.
pub open spec fn clamp_i64(x: int) -> i64 {
    if x > i64::MAX {
        i64::MAX
    } else if x < i64::MIN {
        i64::MIN
    } else {
        x as i64
    }
}

/// The unsigned 64-bit integer nearest to `x`.
pub open spec fn clamp_u64(x: int) -> u64 {
    if x > u64::MAX {
        u64::MAX
    } else if x < 0 {
        0
    } else {
        x as u64
    }
}

/// `x` brought into the signed range: clamped when `saturating`, wrapped otherwise.
pub open spec fn fit_i64(x: int, saturating: bool) -> i64 {
    if saturating {
        clamp_i64(x)
    } else {
        wrap_i64(x)
    }
}

/// `x` brought into the unsigned range: clamped when `saturating`, wrapped otherwise.
pub open spec fn fit_u64(x: int, saturating: bool) -> u64 {
    if saturating {
        clamp_u64(x)
    } else {
        wrap_u64(x)
    }
}

/// Whether the float with the bits `bits` has its sign bit set.
pub open spec fn float_negative(bits: u64) -> bool {
    bits >= 0x8000_0000_0000_0000
}

/// The exponent field of the float with the bits `bits`.
pub open spec fn float_exponent(bits: u64) -> int {
    ((bits as int) / 0x10_0000_0000_0000) % 2048
}

/// The fraction field of the float with the bits `bits`.
pub open spec fn float_fraction(bits: u64) -> int {
    (bits as int) % 0x10_0000_0000_0000
}

/// Whether the bits `bits` are those of no number.
pub open spec fn float_is_nan(bits: u64) -> bool {
    float_exponent(bits) == 2047 && float_fraction(bits) != 0
}

/// The magnitude of the float with the bits `bits`, rounded towards zero
/// to an integer: nothing for a number below one, and else
/// (2^52 + fraction) · 2^(exponent − 1075). An infinity counts as a number
/// beyond every integer of 64 bits.
pub open spec fn float_integer_part(bits: u64) -> nat {
    let e = float_exponent(bits);
    let m = 0x10_0000_0000_0000 + float_fraction(bits);
    if e < 1023 {
        0
    } else if e <= 1075 {
        (m / (pow2((1075 - e) as nat) as int)) as nat
    } else {
        (m * pow2((e - 1075) as nat)) as nat
    }
}

/// The integer that the float with the bits `bits` is rounded to, towards
/// zero; zero for the bits of no number.
pub open spec fn float_to_int(bits: u64) -> int {
    if float_is_nan(bits) {
        0
    } else if float_negative(bits) {
        -(float_integer_part(bits) as int)
    } else {
        float_integer_part(bits) as int
    }
}

/// Two to the power `k`.
fn power_of_two(k: u64) -> (p: u64)
    requires
        k <= 63,
    ensures
        p == pow2(k as nat),
{
    let mut p: u64 = 1;
    let mut i: u64 = 0;
    proof {
        lemma2_to64();
    }
    while i < k
        invariant
            i <= k <= 63,
            p == pow2(i as nat),
        decreases k - i,
    {
        proof {
            lemma_pow2_unfold((i + 1) as nat);
            lemma_pow2_strictly_increases((i + 1) as nat, 64);
            lemma2_to64();
        }
        p = p * 2;
        i += 1;
    }
    p
}

/// The magnitude of the float with the bits `bits`, rounded towards zero,
/// if it is below 2^64; `None` if it is 2^64 or more.
fn float_magnitude(bits: u64) -> (r: Option<u64>)
    ensures
        match r {
            Some(v) => v == float_integer_part(bits),
            None => float_integer_part(bits) >= 0x1_0000_0000_0000_0000,
        },
        r is Some && float_exponent(bits) < 1086 ==> r->0 < 0x8000_0000_0000_0000,
        float_exponent(bits) >= 1086 ==> float_integer_part(bits) >= 0x8000_0000_0000_0000,
{
    let exponent: u64 = (bits / 0x10_0000_0000_0000) % 2048;
    let fraction: u64 = bits % 0x10_0000_0000_0000;
    let m: u64 = 0x10_0000_0000_0000 + fraction;
    proof {
        lemma2_to64();
        lemma2_to64_rest();
    }
    if exponent < 1023 {
        Some(0)
    } else if exponent <= 1075 {
        let divisor = power_of_two(1075 - exponent);
        proof {
            lemma_pow2_pos((1075 - exponent) as nat);
            if exponent < 1075 {
                lemma_pow2_strictly_increases(0, (1075 - exponent) as nat);
            }
        }
        let v = m / divisor;
        assert(v <= m);
        Some(v)
    } else if exponent <= 1086 {
        let factor = power_of_two(exponent - 1075);
        proof {
            if exponent < 1086 {
                lemma_pow2_strictly_increases((exponent - 1075) as nat, 11);
            }
            assert(factor <= 2048);
            assert(m * factor < 0x20_0000_0000_0000 * 2048) by (nonlinear_arith)
                requires
                    m < 0x20_0000_0000_0000,
                    factor <= 2048,
            ;
            if exponent < 1086 {
                assert(factor <= 1024) by {
                    lemma_pow2_strictly_increases((exponent - 1075) as nat, 11);
                    lemma_pow2_unfold(11);
                }
                assert(m * factor < 0x20_0000_0000_0000 * 1024) by (nonlinear_arith)
                    requires
                        m < 0x20_0000_0000_0000,
                        factor <= 1024,
                ;
            } else {
                assert(m * factor >= 0x10_0000_0000_0000 * 2048) by (nonlinear_arith)
                    requires
                        m >= 0x10_0000_0000_0000,
                        factor == 2048,
                ;
            }
        }
        Some(m * factor)
    } else {
        proof {
            let k = (exponent - 1075) as nat;
            if k > 12 {
                lemma_pow2_strictly_increases(12, k);
            }
            assert(m * pow2(k) >= 0x10_0000_0000_0000 * 4096) by (nonlinear_arith)
                requires
                    m >= 0x10_0000_0000_0000,
                    pow2(k) >= 4096,
            ;
        }
        None
    }
}

/// A numeric value of the key-value store.
///
/// A floating-point value is held as the bit pattern of its IEEE 754 binary64
/// representation, so that storing and loading it is lossless. Such a value
/// can be converted to an integer; arithmetic on such values is not part of
/// this library.
#[derive(Clone, Copy, Debug, PartialEq, Eq, Structural)]
pub enum Numeric {
    /// A signed 64-bit integer.
    Integer(i64),
    /// An unsigned 64-bit integer.
    UnsignedInteger(u64),
    /// The bits of a 64-bit floating-point number.
    Float(u64),
}

impl Numeric {
    /// Whether this value is a floating-point number.
    pub open spec fn is_float(self) -> bool {
        self is Float
    }

    /// The value as a signed integer. An unsigned value above the signed
    /// range is clamped when `saturating` and wrapped otherwise. A
    /// floating-point value is rounded towards zero and clamped; what is
    /// no number counts as zero.
    pub open spec fn spec_as_i64_lossy(self, saturating: bool) -> i64 {
        match self {
            Numeric::Integer(v) => v,
            Numeric::UnsignedInteger(v) => fit_i64(v as int, saturating),
            Numeric::Float(bits) => clamp_i64(float_to_int(bits)),
        }
    }

    /// The value as an unsigned integer. A negative value is clamped to
    /// zero when `saturating` and wrapped otherwise. A floating-point
    /// value is rounded towards zero and clamped; what is no number counts
    /// as zero.
    pub open spec fn spec_as_u64_lossy(self, saturating: bool) -> u64 {
        match self {
            Numeric::Integer(v) => fit_u64(v as int, saturating),
            Numeric::UnsignedInteger(v) => v,
            Numeric::Float(bits) => clamp_u64(float_to_int(bits)),
        }
    }

    /// Converts to a signed integer; see [`Numeric::spec_as_i64_lossy`].
    pub fn as_i64_lossy(&self, saturating: bool) -> (r: i64)
        ensures
            r == self.spec_as_i64_lossy(saturating),
    {
        match self {
            Numeric::Integer(v) => *v,
            Numeric::UnsignedInteger(v) => {
                if *v <= 0x7fff_ffff_ffff_ffffu64 {
                    *v as i64
                } else if saturating {
                    i64::MAX
                } else {
                    let low: u64 = *v - 0x8000_0000_0000_0000u64;
                    (low as i64) + i64::MIN
                }
            },
            Numeric::Float(bits) => {
                let negative = *bits >= 0x8000_0000_0000_0000;
                if is_nan(*bits) {
                    0
                } else {
                    match float_magnitude(*bits) {
                        Some(v) => if v <= 0x7fff_ffff_ffff_ffffu64 {
                            if negative {
                                -(v as i64)
                            } else {
                                v as i64
                            }
                        } else if negative {
                            i64::MIN
                        } else {
                            i64::MAX
                        },
                        None => if negative {
                            i64::MIN
                        } else {
                            i64::MAX
                        },
                    }
                }
            },
        }
    }

    /// Converts to an unsigned integer; see [`Numeric::spec_as_u64_lossy`].
    pub fn as_u64_lossy(&self, saturating: bool) -> (r: u64)
        ensures
            r == self.spec_as_u64_lossy(saturating),
    {
        match self {
            Numeric::Integer(v) => {
                if *v >= 0 {
                    *v as u64
                } else if saturating {
                    0
                } else {
                    let low: i64 = *v - i64::MIN;
                    (low as u64) + 0x8000_0000_0000_0000u64
                }
            },
            Numeric::UnsignedInteger(v) => *v,
            Numeric::Float(bits) => {
                let negative = *bits >= 0x8000_0000_0000_0000;
                if is_nan(*bits) || negative {
                    0
                } else {
                    match float_magnitude(*bits) {
                        Some(v) => v,
                        None => u64::MAX,
                    }
                }
            },
        }
    }
}

/// Whether the bits `bits` are those of no number.
pub fn is_nan(bits: u64) -> (r: bool)
    ensures
        r == float_is_nan(bits),
{
    (bits / 0x10_0000_0000_0000) % 2048 == 2047 && bits % 0x10_0000_0000_0000 != 0
}

/// Whether adding or subtracting `amount` needs floating-point arithmetic.
pub open spec fn needs_float_arithmetic(amount: Numeric) -> bool {
    amount.is_float()
}

/// The sum (`sign == 1`) or difference (`sign == -1`) of `existing` and
/// `amount`, in the kind of `amount`.
pub open spec fn spec_combine(existing: Numeric, amount: Numeric, saturating: bool, sign: int) -> Option<Numeric> {
    match amount {
        Numeric::Integer(a) => Some(
            Numeric::Integer(
                fit_i64(existing.spec_as_i64_lossy(saturating) + sign * a, saturating),
            ),
        ),
        Numeric::UnsignedInteger(a) => Some(
            Numeric::UnsignedInteger(
                fit_u64(existing.spec_as_u64_lossy(saturating) + sign * a, saturating),
            ),
        ),
        Numeric::Float(_) => None,
    }
}

/// What `Increment` stores: `existing + amount` in the kind of `amount`.
pub open spec fn spec_increment(existing: Numeric, amount: Numeric, saturating: bool) -> Option<Numeric> {
    spec_combine(existing, amount, saturating, 1)
}

/// What `Decrement` stores: `existing - amount` in the kind of `amount`.
pub open spec fn spec_decrement(existing: Numeric, amount: Numeric, saturating: bool) -> Option<Numeric> {
    spec_combine(existing, amount, saturating, -1)
}

/// Adds `amount` to `existing`. The result has the kind of `amount`; the
/// existing value is first converted to that kind. Integer results are
/// clamped to the range of their type when `saturating` and wrap otherwise.
///
/// Returns `None` exactly when `amount` is a floating-point number: the
/// arithmetic of such numbers is left to the caller.
pub fn increment(existing: &Numeric, amount: &Numeric, saturating: bool) -> (r: Option<Numeric>)
    ensures
        r == spec_increment(*existing, *amount, saturating),
        r is None <==> needs_float_arithmetic(*amount),
{
    match amount {
        Numeric::Integer(amount) => {
            let existing_value = existing.as_i64_lossy(saturating);
            let new_value: i64 = if saturating {
                match existing_value.checked_add(*amount) {
                    Some(sum) => sum,
                    None => if *amount > 0 { i64::MAX } else { i64::MIN },
                }
            } else {
                existing_value.wrapping_add(*amount)
            };
            Some(Numeric::Integer(new_value))
        },
        Numeric::UnsignedInteger(amount) => {
            let existing_value = existing.as_u64_lossy(saturating);
            let new_value: u64 = if saturating {
                existing_value.saturating_add(*amount)
            } else {
                existing_value.wrapping_add(*amount)
            };
            Some(Numeric::UnsignedInteger(new_value))
        },
        Numeric::Float(_) => None,
    }
}

/// Subtracts `amount` from `existing`. The result has the kind of `amount`;
/// the existing value is first converted to that kind. Integer results are
/// clamped to the range of their type when `saturating` and wrap otherwise.
///
/// Returns `None` exactly when `amount` is a floating-point number: the
/// arithmetic of such numbers is left to the caller.
pub fn decrement(existing: &Numeric, amount: &Numeric, saturating: bool) -> (r: Option<Numeric>)
    ensures
        r == spec_decrement(*existing, *amount, saturating),
        r is None <==> needs_float_arithmetic(*amount),
{
    match amount {
        Numeric::Integer(amount) => {
            let existing_value = existing.as_i64_lossy(saturating);
            let new_value: i64 = if saturating {
                match existing_value.checked_sub(*amount) {
                    Some(difference) => difference,
                    None => if *amount > 0 { i64::MIN } else { i64::MAX },
                }
            } else {
                existing_value.wrapping_sub(*amount)
            };
            Some(Numeric::Integer(new_value))
        },
        Numeric::UnsignedInteger(amount) => {
            let existing_value = existing.as_u64_lossy(saturating);
            let new_value: u64 = if saturating {
                existing_value.saturating_sub(*amount)
            } else {
                existing_value.wrapping_sub(*amount)
            };
            Some(Numeric::UnsignedInteger(new_value))
        },
        Numeric::Float(_) => None,
    }
}

/// Some multiple of 2^64 separates `x` from its wrapped signed value.
proof fn lemma_wrap_i64_offset(x: int) -> (k: int)
    ensures
        wrap_i64(x) as int == x + k * range_64(),
{
    let r = range_64();
    lemma_fundamental_div_mod(x, r);
    lemma_mod_bound(x, r);
    let q = x / r;
    assert(r * q == q * r) by (nonlinear_arith);
    if x % r > i64::MAX {
        assert((-q - 1) * r == -(q * r) - r) by (nonlinear_arith);
        -q - 1
    } else {
        assert((-q) * r == -(q * r)) by (nonlinear_arith);
        -q
    }
}

/// Some multiple of 2^64 separates `x` from its wrapped unsigned value.
proof fn lemma_wrap_u64_offset(x: int) -> (k: int)
    ensures
        wrap_u64(x) as int == x + k * range_64(),
{
    let r = range_64();
    lemma_fundamental_div_mod(x, r);
    lemma_mod_bound(x, r);
    let q = x / r;
    assert(r * q == q * r) by (nonlinear_arith);
    assert((-q) * r == -(q * r)) by (nonlinear_arith);
    -q
}

/// Wrapping does not see multiples of 2^64.
proof fn lemma_wrap_ignores_multiples(y: int, k: int)
    ensures
        wrap_i64(y + k * range_64()) == wrap_i64(y),
        wrap_u64(y + k * range_64()) == wrap_u64(y),
{
    let r = range_64();
    lemma_mod_multiples_vanish(k, y, r);
    assert(r * k + y == y + k * r) by (nonlinear_arith);
}

/// A value within the range wraps to itself.
pub proof fn lemma_wrap_in_range(y: int)
    ensures
        i64::MIN <= y <= i64::MAX ==> wrap_i64(y) == y,
        0 <= y <= u64::MAX ==> wrap_u64(y) == y,
{
    let r = range_64();
    if 0 <= y <= u64::MAX {
        lemma_small_mod(y as nat, r as nat);
    }
    if i64::MIN <= y < 0 {
        lemma_mod_multiples_vanish(1, y, r);
        lemma_small_mod((y + r) as nat, r as nat);
    }
}

/// The wrapped unsigned value of a signed integer: itself, or itself plus 2^64.
pub proof fn lemma_wrap_u64_value(v: int)
    requires
        i64::MIN <= v <= i64::MAX,
    ensures
        wrap_u64(v) == (if v >= 0 { v } else { v + range_64() }),
{
    lemma_wrap_in_range(v);
    if v < 0 {
        lemma_wrap_ignores_multiples(v + range_64(), -1);
        lemma_wrap_in_range(v + range_64());
    }
}

/// The wrapped signed value of an unsigned integer: itself, or itself minus 2^64.
pub proof fn lemma_wrap_i64_value(v: int)
    requires
        0 <= v <= u64::MAX,
    ensures
        wrap_i64(v) == (if v <= i64::MAX { v } else { v - range_64() }),
{
    lemma_wrap_in_range(v);
    if v > i64::MAX {
        lemma_wrap_ignores_multiples(v - range_64(), 1);
        lemma_wrap_in_range(v - range_64());
    }
}

/// A signed integer survives the passage through its two's complement.
pub proof fn lemma_wrap_i64_of_u64(v: int)
    requires
        i64::MIN <= v <= i64::MAX,
    ensures
        wrap_i64(wrap_u64(v) as int) == v,
{
    lemma_wrap_u64_value(v);
    lemma_wrap_i64_value(wrap_u64(v) as int);
}

/// Wrapping a sum may be done before or after adding the second term.
pub proof fn lemma_wrap_add(x: int, y: int)
    ensures
        wrap_i64(wrap_i64(x) + y) == wrap_i64(x + y),
        wrap_u64(wrap_u64(x) + y) == wrap_u64(x + y),
{
    let k = lemma_wrap_i64_offset(x);
    lemma_wrap_ignores_multiples(x + y, k);
    let j = lemma_wrap_u64_offset(x);
    lemma_wrap_ignores_multiples(x + y, j);
}

/// Incrementing and then decrementing by the same integer amount, without
/// saturation, gives back the value the first step started from, converted
/// to the kind of the amount, whether or not either step wrapped.
pub proof fn lemma_increment_then_decrement(existing: Numeric, amount: Numeric)
    requires
        !needs_float_arithmetic(amount),
    ensures
        spec_increment(existing, amount, false) is Some,
        spec_decrement(spec_increment(existing, amount, false)->0, amount, false)
            == spec_increment(existing, Numeric::zero_like(amount), false),
{
    match amount {
        Numeric::Integer(a) => {
            let e = existing.spec_as_i64_lossy(false) as int;
            lemma_wrap_add(e + a, -a);
        },
        Numeric::UnsignedInteger(a) => {
            let e = existing.spec_as_u64_lossy(false) as int;
            lemma_wrap_add(e + a, -a);
        },
        Numeric::Float(_) => {},
    }
}

/// Incrementing a signed value by `x` and then by `-x`, without saturation
/// and without overflow on either step, returns the original value.
pub proof fn lemma_increment_by_opposite(existing: i64, x: i64)
    requires
        x != i64::MIN,
        i64::MIN <= existing + x <= i64::MAX,
    ensures
        spec_increment(Numeric::Integer(existing), Numeric::Integer(x), false)
            == Some(Numeric::Integer((existing + x) as i64)),
        spec_increment(Numeric::Integer((existing + x) as i64), Numeric::Integer((-x) as i64), false)
            == Some(Numeric::Integer(existing)),
{
    lemma_wrap_in_range(existing + x);
    lemma_wrap_in_range(existing as int);
}

impl Numeric {
    /// Zero in the kind of `amount`.
    pub open spec fn zero_like(amount: Numeric) -> Numeric {
        match amount {
            Numeric::Integer(_) => Numeric::Integer(0),
            Numeric::UnsignedInteger(_) => Numeric::UnsignedInteger(0),
            Numeric::Float(_) => Numeric::Float(0),
        }
    }
}

} // verus!
