//! Double-precision numbers, held as their bits.
//!
//! Telemetry values and limits are IEEE 754 doubles. What the station decides by them is their
//! order, and that is a matter of integers: every finite double is a whole number of 2^-1074.

use vstd::arithmetic::mul::*;
use vstd::arithmetic::power2::*;
use vstd::prelude::*;

verus! {

/// A double-precision number by its IEEE 754 bit pattern.
#[derive(Clone, Copy, Debug, PartialEq, Eq, Structural)]
pub struct Float64 {
    pub bits: u64,
}

/// The bits below the sign.
pub open spec fn magnitude_bits(bits: u64) -> nat {
    (bits % 0x8000_0000_0000_0000) as nat
}

/// The size of a number, in units of 2^-1074, from the bits below its sign: eleven bits of
/// exponent above fifty-two of fraction. Infinity comes out above every finite number.
pub open spec fn scaled_magnitude(magnitude: nat) -> nat {
    let exponent = magnitude / 0x10_0000_0000_0000;
    let fraction = magnitude % 0x10_0000_0000_0000;
    if exponent == 0 {
        fraction
    } else {
        (0x10_0000_0000_0000 + fraction) * pow2((exponent - 1) as nat)
    }
}

/// The power of two that fifty-three binary digits of `n` are counted in.
pub open spec fn unit_of(n: nat) -> nat
    decreases n,
{
    if n < 0x20_0000_0000_0000 {
        1
    } else {
        2 * unit_of(n / 2)
    }
}

/// The nearest number to `n` that fifty-three binary digits can hold; where two are equally
/// near, the one whose last digit is even.
pub open spec fn rounded(n: nat) -> nat {
    let unit = unit_of(n);
    let below = n / unit;
    let rest = n % unit;
    if 2 * rest < unit || (2 * rest == unit && below % 2 == 0) {
        below * unit
    } else {
        (below + 1) * unit
    }
}

/// As [`rounded`], below zero too.
pub open spec fn rounded_int(n: int) -> int {
    if n < 0 {
        -(rounded((-n) as nat) as int)
    } else {
        rounded(n as nat) as int
    }
}

/// The double nearest to a natural number, ties to even.
pub open spec fn nearest_double(n: nat) -> Float64 {
    choose|f: Float64|
        f.bits < 0x7ff0_0000_0000_0000 && #[trigger] f.scaled() == rounded(n) * pow2(1074)
}

/// The double nearest to an integer, ties to even.
pub open spec fn nearest_double_int(n: int) -> Float64 {
    if n < 0 {
        Float64 { bits: (nearest_double((-n) as nat).bits + 0x8000_0000_0000_0000) as u64 }
    } else {
        nearest_double(n as nat)
    }
}

/// A natural number of 2^-1074, rounded to a whole number, halves away from zero.
pub open spec fn whole_number(scaled: nat) -> nat {
    (2 * scaled + pow2(1074)) / (2 * pow2(1074))
}

/// How many nanoseconds a number of seconds is: the double nearest to a billion times the
/// number, rounded to a whole number. `None` for what is not finite, and for a count whose size
/// is 2^63 or more.
pub open spec fn nanos_of_seconds(seconds: Float64) -> Option<int> {
    if magnitude_bits(seconds.bits) >= 0x7ff0_0000_0000_0000 {
        None
    } else {
        let size = whole_number(
            rounded(scaled_magnitude(magnitude_bits(seconds.bits)) * 1_000_000_000),
        );
        if size >= 0x8000_0000_0000_0000 {
            None
        } else if seconds.bits >= 0x8000_0000_0000_0000 {
            Some(-(size as int))
        } else {
            Some(size as int)
        }
    }
}

impl Float64 {
    /// Whether this is not a number.
    pub open spec fn nan(self) -> bool {
        magnitude_bits(self.bits) > 0x7ff0_0000_0000_0000
    }

    /// The number, in units of 2^-1074.
    pub open spec fn scaled(self) -> int {
        if self.bits >= 0x8000_0000_0000_0000 {
            -(scaled_magnitude(magnitude_bits(self.bits)) as int)
        } else {
            scaled_magnitude(magnitude_bits(self.bits)) as int
        }
    }

    /// `self <= other`: false where either is not a number.
    pub open spec fn at_most(self, other: Float64) -> bool {
        !self.nan() && !other.nan() && self.scaled() <= other.scaled()
    }

    /// `self < other`: false where either is not a number.
    pub open spec fn below(self, other: Float64) -> bool {
        !self.nan() && !other.nan() && self.scaled() < other.scaled()
    }

    /// `self == other`: false where either is not a number.
    pub open spec fn equal(self, other: Float64) -> bool {
        !self.nan() && !other.nan() && self.scaled() == other.scaled()
    }

    /// The number with these bits.
    pub fn from_bits(bits: u64) -> (r: Float64)
        ensures
            r.bits == bits,
    {
        Float64 { bits }
    }

    /// The bits of the number.
    pub fn to_bits(self) -> (r: u64)
        ensures
            r == self.bits,
    {
        self.bits
    }

    /// Whether this is not a number.
    pub fn is_nan(self) -> (r: bool)
        ensures
            r == self.nan(),
    {
        self.bits % 0x8000_0000_0000_0000 > 0x7ff0_0000_0000_0000
    }

    /// An integer that orders numbers as their values do.
    fn key(self) -> (r: i64)
        ensures
            r == (if self.bits >= 0x8000_0000_0000_0000 {
                -(magnitude_bits(self.bits) as int)
            } else {
                magnitude_bits(self.bits) as int
            }),
    {
        let magnitude: u64 = self.bits % 0x8000_0000_0000_0000;
        if self.bits >= 0x8000_0000_0000_0000 {
            -(magnitude as i64)
        } else {
            magnitude as i64
        }
    }

    /// `self <= other`, as IEEE 754 has it: false where either is not a number.
    pub fn le(self, other: Float64) -> (r: bool)
        ensures
            r == self.at_most(other),
    {
        proof {
            lemma_key_orders(self, other);
        }
        !self.is_nan() && !other.is_nan() && self.key() <= other.key()
    }

    /// `self < other`, as IEEE 754 has it: false where either is not a number.
    pub fn lt(self, other: Float64) -> (r: bool)
        ensures
            r == self.below(other),
    {
        proof {
            lemma_key_orders(self, other);
        }
        !self.is_nan() && !other.is_nan() && self.key() < other.key()
    }

    /// `self == other`, as IEEE 754 has it: a number that is not one equals nothing, and the
    /// two zeros are equal.
    pub fn same(self, other: Float64) -> (r: bool)
        ensures
            r == self.equal(other),
    {
        proof {
            lemma_key_orders(self, other);
        }
        !self.is_nan() && !other.is_nan() && self.key() == other.key()
    }

    /// The double nearest to an unsigned integer, ties to even.
    pub fn from_u64(value: u64) -> (r: Float64)
        ensures
            !r.nan(),
            r.bits < 0x7ff0_0000_0000_0000,
            r.scaled() == rounded(value as nat) * pow2(1074),
            r == nearest_double(value as nat),
    {
        if value == 0 {
            proof {
                assert(unit_of(0) == 1);
                lemma_mul_basics(pow2(1074) as int);
            }
            let zero = Float64 { bits: 0 };
            proof {
                lemma_nearest_double(zero, 0);
            }
            return zero;
        }
        let mut below: u64 = value;
        let mut unit: u64 = 1;
        let mut exponent: u64 = 1075;
        proof {
            lemma_unit_of(value as nat);
            lemma2_to64();
            assert(value as nat / 1 == value as nat);
        }
        while below >= 0x20_0000_0000_0000
            invariant
                0 < unit,
                below == value as nat / unit as nat,
                unit <= 2048,
                1075 <= exponent <= 1075 + 11,
                unit == pow2((exponent - 1075) as nat),
                unit_of(value as nat) == unit * unit_of(below as nat),
                value > 0,
                below > 0,
            decreases below,
        {
            proof {
                let half = below as nat / 2;
                assert(unit_of(below as nat) == 2 * unit_of(half));
                assert(unit * (2 * unit_of(half)) == (2 * unit) * unit_of(half))
                    by (nonlinear_arith);
                vstd::arithmetic::div_mod::lemma_div_denominator(value as int, unit as int, 2);
                assert(unit * 2 == 2 * unit);
                lemma_pow2_unfold((exponent + 1 - 1075) as nat);
                assert(unit * below <= value) by (nonlinear_arith)
                    requires
                        below == value as nat / unit as nat,
                        unit > 0,
                ;
                assert(unit * 0x20_0000_0000_0000 <= unit * below) by (nonlinear_arith)
                    requires
                        below >= 0x20_0000_0000_0000,
                        unit > 0,
                ;
                lemma2_to64();
                if exponent < 1075 + 10 {
                    lemma_pow2_strictly_increases((exponent + 1 - 1075) as nat, 11);
                }
            }
            below = below / 2;
            unit = unit * 2;
            exponent = exponent + 1;
        }
        proof {
            assert(unit_of(below as nat) == 1);
            lemma_mul_basics(unit as int);
        }
        let rest: u64 = value % unit;
        if 2 * rest > unit || (2 * rest == unit && below % 2 == 1) {
            below = below + 1;
        }
        assert(rounded(value as nat) == below * unit);
        let nearest = Self::assemble(below, exponent, unit);
        proof {
            lemma_nearest_double(nearest, value as nat);
        }
        nearest
    }

    /// The double `significand * unit`, where `unit` is 2^(`exponent` - 1075).
    fn assemble(significand: u64, exponent: u64, unit: u64) -> (r: Float64)
        requires
            0 < significand <= 0x20_0000_0000_0000,
            1075 <= exponent <= 1086,
            unit == pow2((exponent - 1075) as nat),
        ensures
            r.bits < 0x7ff0_0000_0000_0000,
            !r.nan(),
            r.scaled() == (significand * unit) * pow2(1074),
    {
        let mut digits: u64 = significand;
        let mut place: u64 = exponent;
        proof {
            lemma_pow2_adds((exponent - 1075) as nat, 1074);
            lemma_mul_is_associative(significand as int, unit as int, pow2(1074) as int);
        }
        let ghost value = significand * pow2((exponent - 1) as nat);
        if digits == 0x20_0000_0000_0000 {
            digits = 0x10_0000_0000_0000;
            place = place + 1;
            proof {
                lemma_pow2_unfold((place - 1) as nat);
                assert(value == digits * pow2((place - 1) as nat)) by (nonlinear_arith)
                    requires
                        value == 0x20_0000_0000_0000 * pow2((exponent - 1) as nat),
                        digits == 0x10_0000_0000_0000,
                        pow2((place - 1) as nat) == 2 * pow2((exponent - 1) as nat),
                ;
            }
        }
        let ghost mut spare: int = 52;
        proof {
            lemma2_to64_rest();
            assert(digits * pow2(52) >= 0x10_0000_0000_0000) by (nonlinear_arith)
                requires
                    digits > 0,
                    pow2(52) == 0x10_0000_0000_0000,
            ;
        }
        while digits < 0x10_0000_0000_0000
            invariant
                0 < digits < 0x20_0000_0000_0000,
                0 <= spare <= 52,
                1023 + spare <= place <= 1087,
                digits * pow2(spare as nat) >= 0x10_0000_0000_0000,
                value == digits * pow2((place - 1) as nat),
            decreases spare,
        {
            proof {
                if spare == 0 {
                    lemma2_to64();
                }
                lemma_pow2_unfold(spare as nat);
                lemma_pow2_unfold((place - 1) as nat);
                let step = pow2((spare - 1) as nat);
                assert(digits * (2 * step) == (2 * digits) * step) by (nonlinear_arith);
                let half = pow2((place - 2) as nat);
                assert(digits * (2 * half) == (2 * digits) * half) by (nonlinear_arith);
                spare = spare - 1;
            }
            digits = digits * 2;
            place = place - 1;
        }
        let bits: u64 = place * 0x10_0000_0000_0000 + (digits - 0x10_0000_0000_0000);
        proof {
            assert(bits as nat / 0x10_0000_0000_0000 == place);
            assert(bits as nat % 0x10_0000_0000_0000 == digits - 0x10_0000_0000_0000);
        }
        Float64 { bits }
    }

    /// How many nanoseconds this number of seconds is, when that is a finite count below 2^63.
    pub fn to_nanos(self) -> (r: Option<i64>)
        ensures
            r is Some <==> nanos_of_seconds(self) is Some,
            r matches Some(nanos) ==> nanos_of_seconds(self) == Some(nanos as int),
    {
        let magnitude: u64 = self.bits % 0x8000_0000_0000_0000;
        if magnitude >= 0x7ff0_0000_0000_0000 {
            return None;
        }
        let exponent: u64 = magnitude / 0x10_0000_0000_0000;
        let fraction: u64 = magnitude % 0x10_0000_0000_0000;
        let significand: u64 = if exponent == 0 {
            fraction
        } else {
            0x10_0000_0000_0000 + fraction
        };
        let place: u64 = if exponent == 0 {
            0
        } else {
            exponent - 1
        };
        let exact: u128 = significand as u128 * 1_000_000_000;
        let product: u128 = round_digits(exact);
        proof {
            let scaled = scaled_magnitude(magnitude as nat);
            lemma_pow2_pos(place as nat);
            lemma2_to64();
            assert(scaled == significand * pow2(place as nat)) by {
                if exponent == 0 {
                    lemma_mul_basics(significand as int);
                }
            }
            lemma_rounding_scales(exact as nat, place as nat);
            assert((significand * pow2(place as nat)) * 1_000_000_000 == (significand
                * 1_000_000_000) * pow2(place as nat)) by (nonlinear_arith);
            assert(rounded(scaled * 1_000_000_000) == product * pow2(place as nat));
        }
        if place >= 1074 {
            proof {
                lemma_large_is_large(significand as nat, place as nat);
            }
            return None;
        }
        let drop: u64 = 1074 - place;
        proof {
            lemma_whole_number(product as nat, place as nat);
        }
        if drop >= 100 {
            proof {
                lemma_small_is_zero(product as nat, drop as nat);
            }
            return Some(0);
        }
        let mut half: u128 = 1;
        let mut digits: u64 = 1;
        proof {
            lemma2_to64();
            lemma_pow2_pos(98);
        }
        while digits < drop
            invariant
                1 <= digits <= drop < 100,
                half == pow2((digits - 1) as nat),
                half <= pow2(98),
            decreases drop - digits,
        {
            proof {
                lemma_pow2_unfold(digits as nat);
                lemma_pow2_adds(32, 66);
                lemma_pow2_adds(2, 64);
                lemma2_to64();
                if digits < 98 {
                    lemma_pow2_strictly_increases(digits as nat, 98);
                }
            }
            half = half * 2;
            digits = digits + 1;
        }
        proof {
            lemma_pow2_unfold(drop as nat);
            lemma_pow2_pos((drop - 1) as nat);
            lemma_pow2_adds(32, 66);
            lemma_pow2_adds(2, 64);
            lemma2_to64();
        }
        let size: u128 = (product + half) / (2 * half);
        if size >= 0x8000_0000_0000_0000 {
            return None;
        }
        if self.bits >= 0x8000_0000_0000_0000 {
            Some(-(size as i64))
        } else {
            Some(size as i64)
        }
    }

    /// The double nearest to a signed integer, ties to even.
    pub fn from_i64(value: i64) -> (r: Float64)
        ensures
            !r.nan(),
            r.scaled() == rounded_int(value as int) * pow2(1074),
            r == nearest_double_int(value as int),
    {
        if value >= 0 {
            return Self::from_u64(value as u64);
        }
        let magnitude: u64 = if value == i64::MIN {
            0x8000_0000_0000_0000
        } else {
            (-value) as u64
        };
        let unsigned = Self::from_u64(magnitude);
        proof {
            lemma_mul_unary_negation(rounded(magnitude as nat) as int, pow2(1074) as int);
        }
        Float64 { bits: unsigned.bits + 0x8000_0000_0000_0000 }
    }
}

/// The nearest number that fifty-three binary digits can hold, ties to even.
pub(crate) fn round_digits(n: u128) -> (r: u128)
    requires
        n < 0x100_0000_0000_0000_0000_0000_0000_0000,
    ensures
        r == rounded(n as nat),
        r <= 2 * n,
{
    let mut below: u128 = n;
    let mut unit: u128 = 1;
    proof {
        lemma_unit_of(n as nat);
    }
    while below >= 0x20_0000_0000_0000
        invariant
            0 < unit,
            below == n as nat / unit as nat,
            unit_of(n as nat) == unit * unit_of(below as nat),
            n < 0x100_0000_0000_0000_0000_0000_0000_0000,
            unit * 0x20_0000_0000_0000 <= 2 * n || unit == 1,
        decreases below,
    {
        proof {
            let halved = below as nat / 2;
            assert(unit_of(below as nat) == 2 * unit_of(halved));
            assert(unit * (2 * unit_of(halved)) == (2 * unit) * unit_of(halved))
                by (nonlinear_arith);
            vstd::arithmetic::div_mod::lemma_div_denominator(n as int, unit as int, 2);
            assert(unit * below <= n) by (nonlinear_arith)
                requires
                    below == n as nat / unit as nat,
                    unit > 0,
            ;
            assert(unit * 0x20_0000_0000_0000 <= unit * below) by (nonlinear_arith)
                requires
                    below >= 0x20_0000_0000_0000,
                    unit > 0,
            ;
        }
        below = below / 2;
        unit = unit * 2;
    }
    proof {
        assert(unit_of(below as nat) == 1);
        lemma_mul_basics(unit as int);
    }
    let rest: u128 = n % unit;
    proof {
        vstd::arithmetic::div_mod::lemma_fundamental_div_mod(n as int, unit as int);
        lemma_mul_is_commutative(unit as int, below as int);
        assert((below + 1) * unit == below * unit + unit) by (nonlinear_arith);
    }
    if 2 * rest < unit || (2 * rest == unit && below % 2 == 0) {
        below * unit
    } else {
        proof {
            lemma_below_is_positive(n as nat);
        }
        (below + 1) * unit
    }
}

pub(crate) proof fn lemma_unit_of(n: nat)
    ensures
        unit_of(n) >= 1,
    decreases n,
{
    if n >= 0x20_0000_0000_0000 {
        lemma_unit_of(n / 2);
    }
}

/// Rounding to binary digits commutes with doubling.
proof fn lemma_rounding_doubles(n: nat)
    ensures
        rounded(2 * n) == 2 * rounded(n),
{
    lemma_unit_of(n);
    let unit = unit_of(n);
    let below = n / unit;
    let rest = n % unit;
    if n < 0x10_0000_0000_0000 {
        assert(unit_of(2 * n) == 1);
        assert(unit == 1);
    } else {
        assert((2 * n) / 2 == n);
        if n < 0x20_0000_0000_0000 {
            assert(unit == 1);
        }
        assert(unit_of(2 * n) == 2 * unit);
        vstd::arithmetic::div_mod::lemma_fundamental_div_mod(n as int, unit as int);
        assert(2 * n == below * (2 * unit) + 2 * rest) by (nonlinear_arith)
            requires
                n == unit * below + rest,
        ;
        vstd::arithmetic::div_mod::lemma_fundamental_div_mod_converse(
            (2 * n) as int,
            (2 * unit) as int,
            below as int,
            (2 * rest) as int,
        );
        assert(below * (2 * unit) == 2 * (below * unit)) by (nonlinear_arith);
        assert((below + 1) * (2 * unit) == 2 * ((below + 1) * unit)) by (nonlinear_arith);
    }
}

/// Rounding to binary digits commutes with a shift.
pub(crate) proof fn lemma_rounding_scales(n: nat, k: nat)
    ensures
        rounded(n * pow2(k)) == rounded(n) * pow2(k),
    decreases k,
{
    lemma2_to64();
    if k == 0 {
        lemma_mul_basics(n as int);
        lemma_mul_basics(rounded(n) as int);
    } else {
        let smaller = (k - 1) as nat;
        lemma_rounding_scales(n, smaller);
        lemma_pow2_unfold(k);
        lemma_rounding_doubles(n * pow2(smaller));
        assert(n * (2 * pow2(smaller)) == 2 * (n * pow2(smaller))) by (nonlinear_arith);
        assert(rounded(n) * (2 * pow2(smaller)) == 2 * (rounded(n) * pow2(smaller)))
            by (nonlinear_arith);
    }
}

/// Rounding to a whole number below a shift.
proof fn lemma_whole_number(n: nat, place: nat)
    requires
        place < 1074,
    ensures
        whole_number(n * pow2(place)) == (2 * n + pow2((1074 - place) as nat)) / (2 * pow2(
            (1074 - place) as nat,
        )),
        whole_number(n * pow2(place)) == (n + pow2((1073 - place) as nat)) / (2 * pow2(
            (1073 - place) as nat,
        )),
{
    let drop = (1074 - place) as nat;
    let shift = pow2(place);
    let unit = pow2(drop);
    let half = pow2((drop - 1) as nat);
    lemma_pow2_adds(place, drop);
    lemma_pow2_pos(place);
    lemma_pow2_pos((drop - 1) as nat);
    lemma_pow2_unfold(drop);
    assert(2 * (n * shift) + shift * unit == shift * (2 * n + unit)) by (nonlinear_arith);
    assert(2 * (shift * unit) == shift * (2 * unit)) by (nonlinear_arith);
    lemma_div_cancels(2 * n + unit, 2 * unit, shift);
    lemma_div_cancels(n + half, 2 * half, 2);
}

pub(crate) proof fn lemma_div_cancels(x: nat, d: nat, k: nat)
    requires
        d > 0,
        k > 0,
    ensures
        (k * x) / (k * d) == x / d,
{
    vstd::arithmetic::div_mod::lemma_truncate_middle(x as int, d as int, k as int);
    let q = x / d;
    let r = x % d;
    vstd::arithmetic::div_mod::lemma_fundamental_div_mod(x as int, d as int);
    assert(k * x == q * (k * d) + k * r) by (nonlinear_arith)
        requires
            x == d * q + r,
    ;
    assert(0 <= k * r < k * d) by (nonlinear_arith)
        requires
            0 <= r < d,
            k > 0,
    ;
    vstd::arithmetic::div_mod::lemma_fundamental_div_mod_converse(
        (k * x) as int,
        (k * d) as int,
        q as int,
        (k * r) as int,
    );
}

/// A number shifted far enough down rounds to nothing.
proof fn lemma_small_is_zero(n: nat, drop: nat)
    requires
        n <= 0x200_0000_0000_0000_0000_0000,
        drop >= 100,
    ensures
        (2 * n + pow2(drop)) / (2 * pow2(drop)) == 0,
{
    lemma2_to64();
    lemma_pow2_adds(32, 64);
    lemma_pow2_adds(4, 96);
    if drop > 100 {
        lemma_pow2_strictly_increases(100, drop);
    }
    vstd::arithmetic::div_mod::lemma_fundamental_div_mod_converse(
        (2 * n + pow2(drop)) as int,
        (2 * pow2(drop)) as int,
        0,
        (2 * n + pow2(drop)) as int,
    );
}

/// A whole number of more than fifty-two binary digits, times a billion, is above every `i64`.
proof fn lemma_large_is_large(significand: nat, place: nat)
    requires
        significand >= 0x10_0000_0000_0000,
        place >= 1074,
    ensures
        whole_number(rounded((significand * pow2(place)) * 1_000_000_000)) >= 0x8000_0000_0000_0000,
{
    let n = significand * 1_000_000_000;
    let u = pow2(1074);
    lemma_pow2_pos(1074);
    lemma_rounding_scales(n, place);
    assert((significand * pow2(place)) * 1_000_000_000 == n * pow2(place)) by (nonlinear_arith)
        requires
            n == significand * 1_000_000_000,
    ;
    lemma_rounded_at_least_half(n);
    let r = rounded(n);
    if place > 1074 {
        lemma_pow2_strictly_increases(1074, place);
    }
    assert(r * pow2(place) >= r * u) by (nonlinear_arith)
        requires
            pow2(place) >= u,
    ;
    let p = r * pow2(place);
    assert(2 * p + u >= 0x8000_0000_0000_0000 * (2 * u)) by (nonlinear_arith)
        requires
            p >= r * u,
            r >= 0x8000_0000_0000_0000,
            u > 0,
    ;
    vstd::arithmetic::div_mod::lemma_div_is_ordered(
        0x8000_0000_0000_0000 * (2 * u) as int,
        (2 * p + u) as int,
        (2 * u) as int,
    );
    vstd::arithmetic::div_mod::lemma_div_multiples_vanish(
        0x8000_0000_0000_0000,
        (2 * u) as int,
    );
}

proof fn lemma_rounded_at_least_half(n: nat)
    ensures
        2 * rounded(n) >= n,
{
    lemma_unit_of(n);
    let unit = unit_of(n);
    let below = n / unit;
    vstd::arithmetic::div_mod::lemma_fundamental_div_mod(n as int, unit as int);
    if n > 0 {
        lemma_below_is_positive(n);
    }
    assert(2 * (below * unit) >= n) by (nonlinear_arith)
        requires
            n == unit * below + n % unit,
            n % unit < unit,
            below >= 1 || n == 0,
            unit >= 1,
    ;
    assert((below + 1) * unit >= below * unit) by (nonlinear_arith);
}

pub(crate) proof fn lemma_below_is_positive(n: nat)
    requires
        n > 0,
    ensures
        n / unit_of(n) >= 1,
        unit_of(n) <= n,
    decreases n,
{
    lemma_unit_of(n);
    if n >= 0x20_0000_0000_0000 {
        lemma_below_is_positive(n / 2);
    }
    vstd::arithmetic::div_mod::lemma_div_is_ordered(
        unit_of(n) as int,
        n as int,
        unit_of(n) as int,
    );
    vstd::arithmetic::div_mod::lemma_div_by_self(unit_of(n) as int);
}

/// More below the sign is a larger number.
proof fn lemma_magnitude_increases(a: nat, b: nat)
    requires
        a < b,
    ensures
        scaled_magnitude(a) < scaled_magnitude(b),
{
    let (ea, fa) = (a / 0x10_0000_0000_0000, a % 0x10_0000_0000_0000);
    let (eb, fb) = (b / 0x10_0000_0000_0000, b % 0x10_0000_0000_0000);
    assert(ea <= eb);
    if eb == 0 {
    } else if ea == 0 {
        lemma_pow2_pos((eb - 1) as nat);
        assert((0x10_0000_0000_0000 + fb) * pow2((eb - 1) as nat) >= 0x10_0000_0000_0000)
            by (nonlinear_arith)
            requires
                pow2((eb - 1) as nat) >= 1,
                fb >= 0,
        ;
    } else if ea == eb {
        lemma_pow2_pos((eb - 1) as nat);
        lemma_mul_strict_inequality(
            0x10_0000_0000_0000 + fa as int,
            0x10_0000_0000_0000 + fb as int,
            pow2((eb - 1) as nat) as int,
        );
    } else {
        let pa = pow2((ea - 1) as nat);
        let pb = pow2((eb - 1) as nat);
        lemma_pow2_pos((ea - 1) as nat);
        lemma_pow2_unfold(ea);
        if ea < eb - 1 {
            lemma_pow2_strictly_increases(ea, (eb - 1) as nat);
        }
        assert(2 * pa <= pb);
        assert((0x10_0000_0000_0000 + fa) * pa < (0x10_0000_0000_0000 + fb) * pb)
            by (nonlinear_arith)
            requires
                0 <= fa < 0x10_0000_0000_0000,
                0 <= fb,
                1 <= pa,
                2 * pa <= pb,
        ;
    }
}

pub(crate) proof fn lemma_key_orders(a: Float64, b: Float64)
    ensures
        ({
            let ka = if a.bits >= 0x8000_0000_0000_0000 {
                -(magnitude_bits(a.bits) as int)
            } else {
                magnitude_bits(a.bits) as int
            };
            let kb = if b.bits >= 0x8000_0000_0000_0000 {
                -(magnitude_bits(b.bits) as int)
            } else {
                magnitude_bits(b.bits) as int
            };
            (ka < kb <==> a.scaled() < b.scaled()) && (ka == kb <==> a.scaled() == b.scaled())
        }),
{
    let ma = magnitude_bits(a.bits);
    let mb = magnitude_bits(b.bits);
    if ma < mb {
        lemma_magnitude_increases(ma, mb);
    } else if mb < ma {
        lemma_magnitude_increases(mb, ma);
    }
    if ma > 0 {
        lemma_magnitude_increases(0, ma);
    }
    if mb > 0 {
        lemma_magnitude_increases(0, mb);
    }
}

proof fn lemma_nearest_double(f: Float64, n: nat)
    requires
        f.bits < 0x7ff0_0000_0000_0000,
        f.scaled() == rounded(n) * pow2(1074),
    ensures
        f == nearest_double(n),
{
    lemma_key_orders(f, nearest_double(n));
}

/// An integer of no more than fifty-three binary digits is a double exactly.
pub proof fn small_integers_are_exact(n: int)
    requires
        -0x20_0000_0000_0000 <= n <= 0x20_0000_0000_0000,
    ensures
        rounded_int(n) == n,
{
    let m: nat = if n < 0 {
        (-n) as nat
    } else {
        n as nat
    };
    if m == 0x20_0000_0000_0000 {
        assert(unit_of(m) == 2 * unit_of(m / 2));
        assert(unit_of(m / 2) == 1);
    } else {
        assert(unit_of(m) == 1);
    }
}

} // verus!
