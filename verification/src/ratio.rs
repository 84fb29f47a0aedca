//! Quotients of whole numbers, as doubles.
//!
//! A time axis in seconds, the share of frames that were lost and the edges of the buckets of a
//! plot are all one double divided by another, where both are whole numbers. What the division
//! comes to is a matter of integers: the nearest number that fifty-three binary digits hold.

use vstd::arithmetic::div_mod::*;
use vstd::arithmetic::mul::*;
use vstd::arithmetic::power2::*;
use vstd::prelude::*;

use crate::float::{
    lemma_div_cancels, lemma_key_orders, lemma_rounding_scales, lemma_unit_of, magnitude_bits,
    round_digits, rounded, scaled_magnitude, unit_of, Float64,
};

verus! {

/// The nearest number to `n / d` that fifty-three binary digits can hold; where two are equally
/// near, the one whose last digit is even.
pub open spec fn rounded_ratio(n: nat, d: nat) -> nat {
    let unit = unit_of(n / d);
    let below = n / (d * unit);
    let rest = n % (d * unit);
    if 2 * rest < d * unit || (2 * rest == d * unit && below % 2 == 0) {
        below * unit
    } else {
        (below + 1) * unit
    }
}

/// The quotient of two natural numbers, in units of 2^-1074: each is a double first, and so is
/// what comes of dividing the one by the other.
pub open spec fn scaled_quotient(n: nat, d: nat) -> nat {
    rounded_ratio(rounded(n) * pow2(1074), rounded(d))
}

/// The quotient of two natural numbers, as a double.
pub open spec fn quotient(n: nat, d: nat) -> Float64 {
    choose|f: Float64| f.bits < 0x7ff0_0000_0000_0000 && #[trigger] f.scaled() == scaled_quotient(n, d)
}

/// A number between two neighbouring powers of two is counted in the unit that gives it
/// fifty-three binary digits.
pub(crate) proof fn lemma_unit_in_range(n: nat, e: nat)
    requires
        0x10_0000_0000_0000 * pow2(e) <= n < 0x20_0000_0000_0000 * pow2(e),
    ensures
        unit_of(n) == pow2(e),
    decreases e,
{
    lemma2_to64();
    if e > 0 {
        let half = pow2((e - 1) as nat);
        lemma_pow2_unfold(e);
        lemma_pow2_pos((e - 1) as nat);
        assert(0x10_0000_0000_0000 * half <= n / 2 < 0x20_0000_0000_0000 * half) by {
            assert(0x10_0000_0000_0000 * (2 * half) == 2 * (0x10_0000_0000_0000 * half));
            assert(0x20_0000_0000_0000 * (2 * half) == 2 * (0x20_0000_0000_0000 * half));
        }
        assert(0x10_0000_0000_0000 * half >= 0x10_0000_0000_0000) by (nonlinear_arith)
            requires
                half >= 1,
        ;
        lemma_unit_in_range(n / 2, (e - 1) as nat);
    }
}

/// The digits of a quotient: `significand` and `places`, which stand for
/// `significand * 2^(places - 1074)`.
struct Digits {
    significand: u64,
    places: u64,
}

/// What a division comes to, from its first fifty-three digits and what is left over.
proof fn lemma_rounded_ratio(n: nat, d: nat, up: nat, down: nat, num: nat, den: nat)
    requires
        d > 0,
        up <= 1074,
        num == n * pow2(up),
        den == d * pow2(down),
        0x10_0000_0000_0000 <= num / den < 0x20_0000_0000_0000,
    ensures
        den > 0,
        rounded_ratio(n * pow2(1074), d) == (if 2 * (num % den) < den || (2 * (num % den) == den
            && (num / den) % 2 == 0) {
            num / den
        } else {
            num / den + 1
        }) * pow2((1074 + down - up) as nat),
{
    let shift = (1074 - up) as nat;
    let places = (shift + down) as nat;
    let k = pow2(shift);
    lemma_pow2_pos(shift);
    lemma_pow2_pos(down);
    lemma_pow2_pos(places);
    lemma_pow2_adds(up, shift);
    lemma_pow2_adds(down, shift);
    assert(den > 0) by (nonlinear_arith)
        requires
            den == d * pow2(down),
            d > 0,
            pow2(down) > 0,
    ;
    let whole = n * pow2(1074);
    let unit = pow2(places);
    assert(whole == k * num) by (nonlinear_arith)
        requires
            whole == n * pow2(1074),
            pow2(1074) == pow2(up) * k,
            num == n * pow2(up),
    ;
    assert(d * unit == k * den) by (nonlinear_arith)
        requires
            unit == pow2(down) * k,
            den == d * pow2(down),
    ;
    lemma_div_cancels(num, den, k);
    let below = num / den;
    let rest = num % den;
    assert(whole / (d * unit) == below);
    lemma_fundamental_div_mod(num as int, den as int);
    assert(whole % (d * unit) == k * rest) by {
        assert(k * num == below * (k * den) + k * rest) by (nonlinear_arith)
            requires
                num == den * below + rest,
        ;
        assert(0 <= k * rest < k * den) by (nonlinear_arith)
            requires
                0 <= rest < den,
                k > 0,
        ;
        lemma_fundamental_div_mod_converse(
            (k * num) as int,
            (k * den) as int,
            below as int,
            (k * rest) as int,
        );
    }
    let m = whole / d;
    lemma_div_denominator(whole as int, d as int, unit as int);
    assert(m / unit == below);
    lemma_fundamental_div_mod(m as int, unit as int);
    assert(0x10_0000_0000_0000 * unit <= m < 0x20_0000_0000_0000 * unit) by (nonlinear_arith)
        requires
            m == unit * below + m % unit,
            0 <= m % unit < unit,
            0x10_0000_0000_0000 <= below < 0x20_0000_0000_0000,
            unit > 0,
    ;
    lemma_unit_in_range(m, places);
    assert((2 * rest < den) == (2 * (k * rest) < k * den)) by (nonlinear_arith)
        requires
            k > 0,
    ;
    assert((2 * rest == den) == (2 * (k * rest) == k * den)) by (nonlinear_arith)
        requires
            k > 0,
    ;
}

/// Divides: the nearest fifty-three binary digits.
fn divide(n: u128, d: u128) -> (r: Digits)
    requires
        0 < n <= 0x1_0000_0000_0000_0000,
        0 < d <= 0x1_0000_0000_0000_0000,
    ensures
        0x10_0000_0000_0000 <= r.significand <= 0x20_0000_0000_0000,
        900 <= r.places <= 1100,
        rounded_ratio(n as nat * pow2(1074), d as nat) == r.significand * pow2(r.places as nat),
{
    let mut num: u128 = n;
    let mut den: u128 = d;
    let mut up: u64 = 0;
    let mut down: u64 = 0;
    proof {
        lemma2_to64();
        lemma_mul_basics(n as int);
        lemma_mul_basics(d as int);
    }
    while num / den < 0x10_0000_0000_0000
        invariant
            0 < d <= 0x1_0000_0000_0000_0000,
            0 < n <= 0x1_0000_0000_0000_0000,
            den == d,
            num == n as nat * pow2(up as nat),
            num >= n,
            up <= 117,
            num < 0x20_0000_0000_0000 * d || up == 0,
            num >= pow2(up as nat),
        decreases 117 - up,
    {
        proof {
            let (a, b) = (num as int, den as int);
            let (q, r) = (a / b, a % b);
            lemma_fundamental_div_mod(a, b);
            assert(a < 0x10_0000_0000_0000 * b) by (nonlinear_arith)
                requires
                    a == b * q + r,
                    r < b,
                    q <= 0x10_0000_0000_0000 - 1,
                    b > 0,
            ;
            lemma_pow2_unfold((up + 1) as nat);
            assert(n as nat * (2 * pow2(up as nat)) == 2 * (n as nat * pow2(up as nat)))
                by (nonlinear_arith);
            lemma2_to64();
            lemma2_to64_rest();
            lemma_pow2_adds(52, 64);
            if up >= 116 {
                if up > 116 {
                    lemma_pow2_strictly_increases(116, up as nat);
                }
                assert(num >= pow2(116));
                assert(false);
            }
        }
        num = num * 2;
        up = up + 1;
    }
    proof {
        lemma2_to64();
        lemma_mul_basics(d as int);
        if up > 0 {
            let (a, b) = (num as int, den as int);
            let (q, r) = (a / b, a % b);
            lemma_fundamental_div_mod(a, b);
            assert(q < 0x20_0000_0000_0000) by (nonlinear_arith)
                requires
                    a == b * q + r,
                    r >= 0,
                    a < 0x20_0000_0000_0000 * b,
                    b > 0,
            ;
        }
    }
    while num / den >= 0x20_0000_0000_0000
        invariant
            0 < d <= 0x1_0000_0000_0000_0000,
            0 < n <= 0x1_0000_0000_0000_0000,
            0 < den,
            num == n as nat * pow2(up as nat),
            den == d as nat * pow2(down as nat),
            den >= pow2(down as nat),
            up <= 117,
            down <= 20,
            up == 0 || num / den < 0x20_0000_0000_0000,
            num / den >= 0x10_0000_0000_0000,
        decreases num - den,
    {
        proof {
            let (a, b) = (num as int, den as int);
            let (q, r) = (a / b, a % b);
            lemma_fundamental_div_mod(a, b);
            assert(a >= 0x20_0000_0000_0000 * b) by (nonlinear_arith)
                requires
                    a == b * q + r,
                    r >= 0,
                    q >= 0x20_0000_0000_0000,
                    b > 0,
            ;
            lemma_pow2_unfold((down + 1) as nat);
            assert(d as nat * (2 * pow2(down as nat)) == 2 * (d as nat * pow2(down as nat)))
                by (nonlinear_arith);
            lemma_div_denominator(num as int, den as int, 2);
            lemma2_to64();
            lemma2_to64_rest();
            lemma_mul_basics(n as int);
            if down >= 12 {
                if down > 12 {
                    lemma_pow2_strictly_increases(12, down as nat);
                }
                assert(num >= 0x20_0000_0000_0000 * 4096);
                assert(false);
            }
        }
        den = den * 2;
        down = down + 1;
    }
    let below: u128 = num / den;
    let rest: u128 = num % den;
    proof {
        lemma_rounded_ratio(n as nat, d as nat, up as nat, down as nat, num as nat, den as nat);
    }
    let significand: u64 = if rest < den - rest || (rest == den - rest && below % 2 == 0) {
        below as u64
    } else {
        (below + 1) as u64
    };
    Digits { significand, places: 1074 + down - up }
}

/// The double with these digits.
fn assemble(digits: Digits) -> (r: Float64)
    requires
        0x10_0000_0000_0000 <= digits.significand <= 0x20_0000_0000_0000,
        900 <= digits.places <= 1100,
    ensures
        r.bits < 0x7ff0_0000_0000_0000,
        r.bits > 0,
        r.scaled() == digits.significand * pow2(digits.places as nat),
{
    if digits.significand == 0x20_0000_0000_0000 {
        let bits: u64 = (digits.places + 2) * 0x10_0000_0000_0000;
        proof {
            lemma_pow2_unfold((digits.places + 1) as nat);
            let p = pow2(digits.places as nat);
            assert(0x20_0000_0000_0000 * p == 0x10_0000_0000_0000 * (2 * p));
            assert(bits as nat / 0x10_0000_0000_0000 == digits.places + 2);
            assert(bits as nat % 0x10_0000_0000_0000 == 0);
        }
        Float64 { bits }
    } else {
        let fraction: u64 = digits.significand - 0x10_0000_0000_0000;
        let bits: u64 = (digits.places + 1) * 0x10_0000_0000_0000 + fraction;
        proof {
            assert(bits as nat / 0x10_0000_0000_0000 == digits.places + 1);
            assert(bits as nat % 0x10_0000_0000_0000 == fraction);
        }
        Float64 { bits }
    }
}

/// How many binary digits of a number are beyond the first fifty-three.
pub open spec fn places_beyond(n: nat) -> nat
    decreases n,
{
    if n < 0x20_0000_0000_0000 {
        0
    } else {
        1 + places_beyond(n / 2)
    }
}

pub(crate) proof fn lemma_places(n: nat)
    ensures
        unit_of(n) == pow2(places_beyond(n)),
        n < 0x20_0000_0000_0000 * unit_of(n),
        places_beyond(n) > 0 ==> n >= 0x10_0000_0000_0000 * unit_of(n),
    decreases n,
{
    lemma2_to64();
    if n >= 0x20_0000_0000_0000 {
        lemma_places(n / 2);
        lemma_pow2_unfold(places_beyond(n));
        if places_beyond(n / 2) == 0 {
            assert(unit_of(n / 2) == 1);
        }
    }
}

/// A power of two that a number is less than 2^53 times of is a multiple of its unit.
proof fn lemma_unit_divides(n: nat, b: nat) -> (m: nat)
    requires
        n < 0x20_0000_0000_0000 * pow2(b),
    ensures
        pow2(b) == m * unit_of(n),
        m >= 1,
{
    lemma_places(n);
    let e = places_beyond(n);
    if e > b {
        lemma_pow2_unfold(e);
        if e - 1 > b {
            lemma_pow2_strictly_increases(b, (e - 1) as nat);
        }
        assert(false) by (nonlinear_arith)
            requires
                n < 0x20_0000_0000_0000 * pow2(b),
                n >= 0x10_0000_0000_0000 * pow2(e),
                pow2(e) == 2 * pow2((e - 1) as nat),
                pow2((e - 1) as nat) >= pow2(b),
        ;
    }
    lemma_pow2_adds((b - e) as nat, e);
    lemma_pow2_pos((b - e) as nat);
    pow2((b - e) as nat)
}

/// Rounding does not cross a multiple of the unit, from below.
proof fn lemma_rounded_at_most(n: nat, m: nat)
    requires
        n <= m * unit_of(n),
    ensures
        rounded(n) <= m * unit_of(n),
{
    lemma_unit_of(n);
    let unit = unit_of(n);
    let below = n / unit;
    let rest = n % unit;
    lemma_fundamental_div_mod(n as int, unit as int);
    if rest == 0 {
        assert(below * unit == n) by (nonlinear_arith)
            requires
                n == unit * below,
        ;
    } else {
        assert(below + 1 <= m) by (nonlinear_arith)
            requires
                n == unit * below + rest,
                rest > 0,
                n <= m * unit,
                unit > 0,
        ;
        assert((below + 1) * unit <= m * unit) by (nonlinear_arith)
            requires
                below + 1 <= m,
                unit > 0,
        ;
        assert(below * unit <= (below + 1) * unit) by (nonlinear_arith);
    }
}

/// Rounding does not cross a multiple of the unit, from above.
proof fn lemma_rounded_at_least(n: nat, m: nat)
    requires
        m * unit_of(n) <= n,
    ensures
        m * unit_of(n) <= rounded(n),
{
    lemma_unit_of(n);
    let unit = unit_of(n);
    let below = n / unit;
    lemma_fundamental_div_mod(n as int, unit as int);
    assert(m <= below) by (nonlinear_arith)
        requires
            n == unit * below + n % unit,
            n % unit < unit,
            m * unit <= n,
            unit > 0,
    ;
    assert(m * unit <= below * unit) by (nonlinear_arith)
        requires
            m <= below,
            unit > 0,
    ;
    assert(below * unit <= (below + 1) * unit) by (nonlinear_arith);
}

/// Rounding moves a number by no more than half its unit.
pub(crate) proof fn lemma_rounded_near(n: nat)
    ensures
        2 * rounded(n) <= 2 * n + unit_of(n),
        2 * n <= 2 * rounded(n) + unit_of(n),
{
    lemma_unit_of(n);
    let unit = unit_of(n);
    let below = n / unit;
    lemma_fundamental_div_mod(n as int, unit as int);
    assert((below + 1) * unit == below * unit + unit) by (nonlinear_arith);
    lemma_mul_is_commutative(unit as int, below as int);
}

proof fn lemma_rounded_size(n: nat)
    requires
        n <= u64::MAX,
    ensures
        rounded(n) <= 0x1_0000_0000_0000_0000,
        n > 0 ==> rounded(n) > 0,
{
    lemma2_to64();
    let m = lemma_unit_divides(n, 11);
    let unit = unit_of(n);
    assert((0x20_0000_0000_0000 * m) * unit == 0x1_0000_0000_0000_0000) by (nonlinear_arith)
        requires
            2048 == m * unit,
    ;
    lemma_rounded_at_most(n, 0x20_0000_0000_0000 * m);
    if n > 0 {
        crate::float::lemma_below_is_positive(n);
        assert(1 * unit <= n);
        lemma_rounded_at_least(n, 1);
    }
}

proof fn lemma_quotient(f: Float64, n: nat, d: nat)
    requires
        f.bits < 0x7ff0_0000_0000_0000,
        f.scaled() == scaled_quotient(n, d),
    ensures
        f == quotient(n, d),
{
    lemma_key_orders(f, quotient(n, d));
}

impl Float64 {
    /// One whole number divided by another.
    pub fn ratio(n: u64, d: u64) -> (r: Float64)
        requires
            d > 0,
        ensures
            r == quotient(n as nat, d as nat),
            r.bits < 0x7ff0_0000_0000_0000,
            r.scaled() == scaled_quotient(n as nat, d as nat),
            r.bits == 0 <==> n == 0,
    {
        proof {
            lemma_rounded_size(n as nat);
            lemma_rounded_size(d as nat);
        }
        let divisor: u128 = round_digits(d as u128);
        if n == 0 {
            let zero = Float64 { bits: 0 };
            proof {
                assert(unit_of(0) == 1);
                assert(rounded(0) == 0);
                lemma_mul_basics(pow2(1074) as int);
                assert(0nat * pow2(1074) == 0);
                assert(0nat / (divisor as nat) == 0) by (nonlinear_arith)
                    requires
                        divisor > 0,
                ;
                assert(unit_of(0nat / (divisor as nat)) == 1);
                lemma_mul_basics(divisor as int);
                assert(0nat % (divisor as nat) == 0) by (nonlinear_arith)
                    requires
                        divisor > 0,
                ;
                assert(scaled_quotient(0, d as nat) == 0);
                lemma_quotient(zero, 0, d as nat);
            }
            return zero;
        }
        let dividend: u128 = round_digits(n as u128);
        let digits = divide(dividend, divisor);
        let r = assemble(digits);
        proof {
            lemma_quotient(r, n as nat, d as nat);
        }
        r
    }
}

/// How many seconds a number of nanoseconds is, as a double.
pub open spec fn seconds_of(nanos: int) -> Float64 {
    if nanos < 0 {
        Float64 {
            bits: (quotient((-nanos) as nat, 1_000_000_000).bits + 0x8000_0000_0000_0000) as u64,
        }
    } else {
        quotient(nanos as nat, 1_000_000_000)
    }
}

/// How many nanoseconds a number of seconds is: the double nearest to a billion times the
/// number, cut off to a whole number and to what sixty-four bits hold. None for what is not a
/// number.
pub open spec fn nanos_cut_off(seconds: Float64) -> int {
    let size = rounded(scaled_magnitude(magnitude_bits(seconds.bits)) * 1_000_000_000) / pow2(1074);
    if seconds.nan() {
        0
    } else if seconds.bits >= 0x8000_0000_0000_0000 {
        if size >= 0x8000_0000_0000_0000 {
            i64::MIN as int
        } else {
            -size
        }
    } else if size >= 0x8000_0000_0000_0000 {
        i64::MAX as int
    } else {
        size as int
    }
}

impl Float64 {
    /// How many seconds a number of nanoseconds is.
    pub fn from_nanos(nanos: i64) -> (r: Float64)
        ensures
            r == seconds_of(nanos as int),
            !r.nan(),
    {
        if nanos >= 0 {
            return Self::ratio(nanos as u64, 1_000_000_000);
        }
        let magnitude: u64 = if nanos == i64::MIN {
            0x8000_0000_0000_0000
        } else {
            (-nanos) as u64
        };
        let unsigned = Self::ratio(magnitude, 1_000_000_000);
        Float64 { bits: unsigned.bits + 0x8000_0000_0000_0000 }
    }

    /// How many nanoseconds this number of seconds is, cut off to a whole number and to what
    /// sixty-four bits hold.
    pub fn cut_to_nanos(self) -> (r: i64)
        ensures
            r == nanos_cut_off(self),
    {
        let magnitude: u64 = self.bits % 0x8000_0000_0000_0000;
        if magnitude > 0x7ff0_0000_0000_0000 {
            return 0;
        }
        let size: u64 = cut_size(magnitude);
        if self.bits >= 0x8000_0000_0000_0000 {
            if size >= 0x8000_0000_0000_0000 {
                i64::MIN
            } else {
                -(size as i64)
            }
        } else if size >= 0x8000_0000_0000_0000 {
            i64::MAX
        } else {
            size as i64
        }
    }
}

/// The nanoseconds of the seconds with these bits below the sign, up to 2^63.
fn cut_size(magnitude: u64) -> (r: u64)
    requires
        magnitude <= 0x7ff0_0000_0000_0000,
    ensures
        ({
            let size = rounded(scaled_magnitude(magnitude as nat) * 1_000_000_000) / pow2(1074);
            r == (if size >= 0x8000_0000_0000_0000 {
                0x8000_0000_0000_0000
            } else {
                size
            })
        }),
{
    let exponent: u64 = magnitude / 0x10_0000_0000_0000;
    let fraction: u64 = magnitude % 0x10_0000_0000_0000;
    let significand: u64 = if exponent == 0 {
        fraction
    } else {
        0x10_0000_0000_0000 + fraction
    };
    let place: u64 = if exponent == 0 {
        0
    } else {
        exponent - 1
    };
    let exact: u128 = significand as u128 * 1_000_000_000;
    let mut product: u128 = round_digits(exact);
    proof {
        let scaled = scaled_magnitude(magnitude as nat);
        lemma2_to64();
        assert(scaled == significand * pow2(place as nat)) by {
            if exponent == 0 {
                lemma_mul_basics(significand as int);
            }
        }
        lemma_rounding_scales(exact as nat, place as nat);
        assert((significand * pow2(place as nat)) * 1_000_000_000 == (significand * 1_000_000_000)
            * pow2(place as nat)) by (nonlinear_arith);
        lemma_cut_off(product as nat, place as nat);
    }
    if place >= 1074 {
        proof {
            let over = pow2((place - 1074) as nat);
            lemma_pow2_pos((place - 1074) as nat);
            lemma_rounded_near(exact as nat);
            lemma_places(exact as nat);
            assert(product * over >= product) by (nonlinear_arith)
                requires
                    over >= 1,
                    product >= 0,
            ;
        }
        return 0x8000_0000_0000_0000;
    }
    let mut under: u64 = 1074 - place;
    let ghost all = product as nat;
    let ghost drop = under as nat;
    let ghost mut dropped: nat = 0;
    proof {
        assert(all / 1 == all);
    }
    while under > 0
        invariant
            under + dropped == drop,
            product == all / pow2(dropped),
        decreases under,
    {
        proof {
            lemma_pow2_pos(dropped);
            lemma_pow2_unfold((dropped + 1) as nat);
            lemma_div_denominator(all as int, pow2(dropped) as int, 2);
            assert(pow2(dropped) * 2 == pow2((dropped + 1) as nat));
            dropped = dropped + 1;
        }
        product = product / 2;
        under = under - 1;
    }
    if product >= 0x8000_0000_0000_0000 {
        0x8000_0000_0000_0000
    } else {
        product as u64
    }
}

/// So many times the quotient of two natural numbers, in units of 2^-1074: the count and the
/// quotient are doubles, and so is what comes of multiplying them.
pub open spec fn scaled_multiple(count: nat, n: nat, d: nat) -> nat {
    rounded(rounded(count) * scaled_quotient(n, d))
}

/// So many times the quotient of two natural numbers, cut off to a whole number.
pub open spec fn whole_multiple(count: nat, n: nat, d: nat) -> nat {
    scaled_multiple(count, n, d) / pow2(1074)
}

proof fn lemma_cut_off(product: nat, places: nat)
    ensures
        places >= 1074 ==> (product * pow2(places)) / pow2(1074) == product * pow2(
            (places - 1074) as nat,
        ),
        places < 1074 ==> (product * pow2(places)) / pow2(1074) == product / pow2(
            (1074 - places) as nat,
        ),
{
    lemma_pow2_pos(1074);
    lemma_pow2_pos(places);
    if places >= 1074 {
        let over = (places - 1074) as nat;
        lemma_pow2_adds(over, 1074);
        assert(product * pow2(places) == pow2(1074) * (product * pow2(over))) by (nonlinear_arith)
            requires
                pow2(places) == pow2(over) * pow2(1074),
        ;
        lemma_div_multiples_vanish((product * pow2(over)) as int, pow2(1074) as int);
    } else {
        let under = (1074 - places) as nat;
        lemma_pow2_adds(under, places);
        lemma_pow2_pos(under);
        assert(product * pow2(places) == pow2(places) * product) by (nonlinear_arith);
        assert(pow2(1074) == pow2(places) * pow2(under)) by (nonlinear_arith)
            requires
                pow2(1074) == pow2(under) * pow2(places),
        ;
        lemma_div_cancels(product, pow2(under), pow2(places));
    }
}

/// So many times the quotient of two whole numbers, cut off to a whole number; the largest there
/// is where that is too large.
pub fn times_ratio(count: usize, n: usize, d: usize) -> (r: usize)
    requires
        n > 0,
        d > 0,
    ensures
        r == (if whole_multiple(count as nat, n as nat, d as nat) <= usize::MAX {
            whole_multiple(count as nat, n as nat, d as nat)
        } else {
            usize::MAX as nat
        }),
{
    proof {
        lemma_rounded_size(n as nat);
        lemma_rounded_size(d as nat);
        lemma_rounded_size(count as nat);
    }
    let dividend: u128 = round_digits(n as u128);
    let divisor: u128 = round_digits(d as u128);
    let digits = divide(dividend, divisor);
    let counted: u128 = round_digits(count as u128);
    assert(counted * digits.significand <= 0x1_0000_0000_0000_0000 * 0x20_0000_0000_0000)
        by (nonlinear_arith)
        requires
            0 <= counted <= 0x1_0000_0000_0000_0000,
            0 <= digits.significand <= 0x20_0000_0000_0000,
    ;
    let exact: u128 = counted * digits.significand as u128;
    let mut product: u128 = round_digits(exact);
    proof {
        lemma_rounding_scales(exact as nat, digits.places as nat);
        assert(counted * (digits.significand * pow2(digits.places as nat)) == (counted
            * digits.significand) * pow2(digits.places as nat)) by (nonlinear_arith);
        lemma_cut_off(product as nat, digits.places as nat);
    }
    if digits.places < 1074 {
        let mut under: u64 = 1074 - digits.places;
        let ghost all = product as nat;
        let ghost drop = under as nat;
        let ghost mut dropped: nat = 0;
        proof {
            lemma2_to64();
            assert(all / 1 == all);
        }
        while under > 0
            invariant
                under + dropped == drop,
                product == all / pow2(dropped),
            decreases under,
        {
            proof {
                lemma_pow2_pos(dropped);
                lemma_pow2_unfold((dropped + 1) as nat);
                lemma_div_denominator(all as int, pow2(dropped) as int, 2);
                assert(pow2(dropped) * 2 == pow2((dropped + 1) as nat));
                dropped = dropped + 1;
            }
            product = product / 2;
            under = under - 1;
        }
    } else {
        let mut over: u64 = digits.places - 1074;
        let ghost all = product as nat;
        let ghost raise = over as nat;
        let ghost mut raised: nat = 0;
        proof {
            lemma2_to64();
            lemma_mul_basics(all as int);
        }
        while over > 0
            invariant
                over + raised == raise,
                product == all * pow2(raised),
                whole_multiple(count as nat, n as nat, d as nat) == all * pow2(raise),
            decreases over,
        {
            if product > usize::MAX as u128 {
                proof {
                    lemma_pow2_adds(raised, over as nat);
                    lemma_pow2_pos(over as nat);
                    assert(all * pow2(raise) >= all * pow2(raised)) by (nonlinear_arith)
                        requires
                            pow2(raise) == pow2(raised) * pow2(over as nat),
                            pow2(over as nat) >= 1,
                            pow2(raised) >= 0,
                            all >= 0,
                    ;
                }
                return usize::MAX;
            }
            proof {
                lemma_pow2_unfold((raised + 1) as nat);
                assert(all * (2 * pow2(raised)) == 2 * (all * pow2(raised))) by (nonlinear_arith);
                raised = raised + 1;
            }
            product = product * 2;
            over = over - 1;
        }
    }
    if product > usize::MAX as u128 {
        usize::MAX
    } else {
        product as usize
    }
}

/// A small number is a double exactly.
proof fn lemma_exact(n: nat)
    requires
        n < 0x20_0000_0000_0000,
    ensures
        rounded(n) == n,
{
    assert(unit_of(n) == 1);
}

/// A larger number is counted in no smaller a unit.
proof fn lemma_unit_grows(a: nat, b: nat)
    requires
        a <= b,
    ensures
        unit_of(a) <= unit_of(b),
    decreases b,
{
    lemma_unit_of(b);
    if a >= 0x20_0000_0000_0000 {
        lemma_unit_grows(a / 2, b / 2);
    }
}

/// A division is off by no more than half a unit.
proof fn lemma_ratio_near(n: nat, d: nat)
    requires
        d > 0,
    ensures
        2 * (d * rounded_ratio(n, d)) <= 2 * n + d * unit_of(n / d),
        2 * n <= 2 * (d * rounded_ratio(n, d)) + d * unit_of(n / d),
        (n / (d * unit_of(n / d))) * unit_of(n / d) <= rounded_ratio(n, d),
{
    let unit = unit_of(n / d);
    lemma_unit_of(n / d);
    assert(d * unit > 0) by (nonlinear_arith)
        requires
            d > 0,
            unit >= 1,
    ;
    let step = d * unit;
    let below = n / step;
    let rest = n % step;
    lemma_fundamental_div_mod(n as int, step as int);
    assert(d * (below * unit) == step * below) by (nonlinear_arith)
        requires
            step == d * unit,
    ;
    assert(d * ((below + 1) * unit) == step * below + step) by (nonlinear_arith)
        requires
            step == d * unit,
    ;
    assert(below * unit <= (below + 1) * unit) by (nonlinear_arith);
}

/// The quotient of a whole number by a smaller one: its size, how far off it is, and that it is
/// above one.
proof fn lemma_quotient_bounds(n: nat, d: nat)
    requires
        0 < d < n < 0x10_0000_0000_0000,
    ensures
        scaled_quotient(n, d) > pow2(1074),
        2 * (d * scaled_quotient(n, d)) < (2 * n + 1) * pow2(1074),
        2 * (d * scaled_quotient(n, d)) > (2 * n - 1) * pow2(1074),
{
    lemma_exact(n);
    lemma_exact(d);
    let s = pow2(1074);
    let whole = n * s;
    let m = whole / d;
    let unit = unit_of(m);
    let q = rounded_ratio(whole, d);
    lemma_pow2_pos(1074);
    lemma_pow2_pos(1022);
    lemma_pow2_adds(52, 1022);
    lemma2_to64();
    lemma2_to64_rest();
    let u = pow2(1022);
    assert(s == 0x10_0000_0000_0000 * u);
    lemma_ratio_near(whole, d);
    lemma_places(m);
    lemma_unit_of(m);
    lemma_fundamental_div_mod(whole as int, d as int);
    // The quotient is at least one, so its unit is at least 2^1022.
    assert(m >= s) by (nonlinear_arith)
        requires
            whole == d * m + whole % d,
            whole % d < d,
            whole == n * s,
            n >= d + 1,
            d > 0,
            s >= d,
    ;
    assert(m >= s + u) by {
        assert(whole >= d * (s + u)) by (nonlinear_arith)
            requires
                whole == n * s,
                n >= d + 1,
                s == 0x10_0000_0000_0000 * u,
                d <= 0x10_0000_0000_0000,
                u >= 0,
        ;
        assert(m >= s + u) by (nonlinear_arith)
            requires
                whole == d * m + whole % d,
                whole % d < d,
                whole >= d * (s + u),
                d > 0,
        ;
    }
    assert(0x10_0000_0000_0000 * u <= s);
    lemma_unit_in_range(s, 1022) ;
    lemma_unit_grows(s, m);
    assert(unit >= u);
    // It is no more than a 2^52nd part of the quotient.
    assert(places_beyond(m) > 0) by {
        if places_beyond(m) == 0 {
            assert(unit == 1);
            assert(u > 1) by {
                lemma_pow2_strictly_increases(0, 1022);
            }
        }
    }
    assert(m >= 0x10_0000_0000_0000 * unit);
    assert(d * m <= whole);
    assert(d * unit < s) by (nonlinear_arith)
        requires
            m >= 0x10_0000_0000_0000 * unit,
            d * m <= whole,
            whole == n * s,
            n < 0x10_0000_0000_0000,
            s > 0,
            d > 0,
            unit > 0,
    ;
    assert(2 * (d * q) < (2 * n + 1) * s) by (nonlinear_arith)
        requires
            2 * (d * q) <= 2 * whole + d * unit,
            whole == n * s,
            d * unit < s,
    ;
    assert(2 * (d * q) > (2 * n - 1) * s) by (nonlinear_arith)
        requires
            2 * whole <= 2 * (d * q) + d * unit,
            whole == n * s,
            d * unit < s,
    ;
    // Above one.
    let step = d * unit;
    assert(step > 0) by (nonlinear_arith)
        requires
            step == d * unit,
            d > 0,
            unit > 0,
    ;
    let below = whole / step;
    lemma_div_denominator(whole as int, d as int, unit as int);
    assert(below == m / unit);
    lemma_fundamental_div_mod(m as int, unit as int);
    if m < 2 * s {
        lemma_unit_in_range(m, 1022);
        assert(unit == u);
        assert(below >= 0x10_0000_0000_0001) by (nonlinear_arith)
            requires
                m == unit * below + m % unit,
                m % unit < unit,
                m >= 0x10_0000_0000_0000 * unit + unit,
                unit > 0,
        ;
        assert(below * unit > s) by (nonlinear_arith)
            requires
                below >= 0x10_0000_0000_0001,
                s == 0x10_0000_0000_0000 * unit,
                unit > 0,
        ;
    } else {
        lemma_mul_is_commutative(unit as int, below as int);
        assert(below * unit > m - unit);
        assert(2 * unit <= m) by (nonlinear_arith)
            requires
                m >= 0x10_0000_0000_0000 * unit,
                unit > 0,
        ;
    }
}

/// Where the first of two numbers is short of a boundary by less than half a unit, it is rounded
/// up to it.
proof fn lemma_rounds_up(y: nat, m: nat)
    requires
        y <= m * unit_of(y),
        2 * (m * unit_of(y) - y) < unit_of(y),
    ensures
        rounded(y) == m * unit_of(y),
{
    lemma_unit_of(y);
    let unit = unit_of(y);
    let below = y / unit;
    let rest = y % unit;
    lemma_fundamental_div_mod(y as int, unit as int);
    if rest == 0 {
        assert(below == m) by (nonlinear_arith)
            requires
                y == unit * below,
                y <= m * unit,
                2 * (m * unit - y) < unit,
                unit > 0,
        ;
    } else {
        assert(below + 1 == m) by (nonlinear_arith)
            requires
                y == unit * below + rest,
                0 < rest < unit,
                y <= m * unit,
                2 * (m * unit - y) < unit,
                unit > 0,
        ;
        assert((below + 1) * unit == below * unit + unit) by (nonlinear_arith);
        lemma_mul_is_commutative(unit as int, below as int);
    }
}

/// A step of more than one moves what is cut off by at least one, however the steps are rounded.
proof fn lemma_step(x: nat, g: nat)
    requires
        g > pow2(1074),
        rounded(x) / pow2(1074) + 1 < 0x20_0000_0000_0000,
    ensures
        rounded(x + g) / pow2(1074) >= rounded(x) / pow2(1074) + 1,
{
    let s = pow2(1074);
    lemma_pow2_pos(1074);
    let k = rounded(x) / s;
    let t = (k + 1) * s;
    let y = x + g;
    lemma_fundamental_div_mod(rounded(x) as int, s as int);
    assert(k * s <= rounded(x)) by (nonlinear_arith)
        requires
            rounded(x) == s * k + rounded(x) % s,
            rounded(x) % s >= 0,
    ;
    assert(t == k * s + s) by (nonlinear_arith)
        requires
            t == (k + 1) * s,
    ;
    lemma_rounded_near(x);
    lemma_unit_grows(x, y);
    lemma_unit_of(y);
    let unit = unit_of(y);
    if y < t {
        assert(y < 0x20_0000_0000_0000 * s) by (nonlinear_arith)
            requires
                y < t,
                t == (k + 1) * s,
                k + 1 < 0x20_0000_0000_0000,
                s > 0,
        ;
        let m = lemma_unit_divides(y, 1074);
        assert(t == ((k + 1) * m) * unit) by (nonlinear_arith)
            requires
                t == (k + 1) * s,
                s == m * unit,
        ;
        assert(2 * (t - y) < unit);
        lemma_rounds_up(y, (k + 1) * m);
        assert(rounded(y) == t);
    } else {
        // Either the boundary is a multiple of the unit, or the number is far beyond it.
        if y < 0x20_0000_0000_0000 * s {
            let m = lemma_unit_divides(y, 1074);
            assert(t == ((k + 1) * m) * unit) by (nonlinear_arith)
                requires
                    t == (k + 1) * s,
                    s == m * unit,
            ;
            lemma_rounded_at_least(y, (k + 1) * m);
        } else {
            lemma_places(y);
            assert(places_beyond(y) > 0) by {
                if places_beyond(y) == 0 {
                    lemma2_to64();
                    assert(unit == 1);
                    assert(0x20_0000_0000_0000 * s >= 0x20_0000_0000_0000) by (nonlinear_arith)
                        requires
                            s >= 1,
                    ;
                }
            }
            lemma_rounded_near(y);
            let z = rounded(y);
            assert(z >= 0x1f_ffff_ffff_ffff * s) by (nonlinear_arith)
                requires
                    2 * y <= 2 * z + unit,
                    y >= 0x10_0000_0000_0000 * unit,
                    y >= 0x20_0000_0000_0000 * s,
            ;
            assert(t <= 0x1f_ffff_ffff_ffff * s) by (nonlinear_arith)
                requires
                    t == (k + 1) * s,
                    k + 1 <= 0x1f_ffff_ffff_ffff,
                    s > 0,
            ;
        }
    }
    assert(rounded(y) >= t);
    lemma_div_is_ordered(t as int, rounded(y) as int, s as int);
    lemma_mul_is_commutative((k + 1) as int, s as int);
    lemma_div_multiples_vanish((k + 1) as int, s as int);
}

/// No multiple of a quotient is above the next whole number behind the exact one, for as many
/// times as the divisor says.
proof fn lemma_multiple_bound(count: nat, n: nat, d: nat)
    requires
        0 < d < n < 0x10_0000_0000_0000,
        count <= d,
    ensures
        whole_multiple(count, n, d) <= n,
{
    let s = pow2(1074);
    let q = scaled_quotient(n, d);
    lemma_pow2_pos(1074);
    lemma_quotient_bounds(n, d);
    lemma_exact(count);
    let x = count * q;
    assert(2 * x < (2 * n + 1) * s) by (nonlinear_arith)
        requires
            x == count * q,
            count <= d,
            2 * (d * q) < (2 * n + 1) * s,
            q >= 0,
    ;
    lemma_rounded_near(x);
    lemma_places(x);
    let unit = unit_of(x);
    lemma_unit_of(x);
    let z = rounded(x);
    assert(z < (n + 1) * s) by {
        if places_beyond(x) == 0 {
            lemma2_to64();
            assert(unit == 1);
            assert(x / 1 == x);
            assert(z == x);
            assert(x < (n + 1) * s) by (nonlinear_arith)
                requires
                    2 * x < (2 * n + 1) * s,
                    s > 0,
            ;
        } else {
            assert(unit <= s) by (nonlinear_arith)
                requires
                    x >= 0x10_0000_0000_0000 * unit,
                    2 * x < (2 * n + 1) * s,
                    n < 0x10_0000_0000_0000,
                    s > 0,
                    unit > 0,
            ;
            assert(z < (n + 1) * s) by (nonlinear_arith)
                requires
                    2 * z <= 2 * x + unit,
                    2 * x < (2 * n + 1) * s,
                    unit <= s,
            ;
        }
    }
    lemma_fundamental_div_mod(z as int, s as int);
    let w = z / s;
    assert(w <= n) by (nonlinear_arith)
        requires
            z == s * w + z % s,
            z % s >= 0,
            z < (n + 1) * s,
            s > 0,
    ;
}

/// Each further time a quotient above one is taken, what is cut off grows.
pub proof fn multiples_grow(count: nat, n: nat, d: nat)
    requires
        0 < d < n < 0x10_0000_0000_0000,
        count <= d,
    ensures
        whole_multiple(count, n, d) < whole_multiple(count + 1, n, d),
{
    lemma_quotient_bounds(n, d);
    lemma_exact(count);
    lemma_exact(count + 1);
    lemma_multiple_bound(count, n, d);
    let q = scaled_quotient(n, d);
    assert((count + 1) * q == count * q + q) by (nonlinear_arith);
    lemma_step(count * q, q);
}

/// Taken as many times as the divisor says, a quotient comes back to its dividend, or is cut off
/// one short of it.
pub proof fn multiples_come_back(n: nat, d: nat)
    requires
        0 < d < n < 0x10_0000_0000_0000,
    ensures
        n - 1 <= whole_multiple(d, n, d) <= n,
        whole_multiple(0, n, d) == 0,
{
    let s = pow2(1074);
    let q = scaled_quotient(n, d);
    lemma_pow2_pos(1074);
    lemma_quotient_bounds(n, d);
    lemma_exact(d);
    lemma_exact(0);
    lemma_multiple_bound(d, n, d);
    assert(0 * q == 0);
    assert(rounded(0) == 0);
    assert(0nat / s == 0) by (nonlinear_arith)
        requires
            s > 0,
    ;
    let x = d * q;
    lemma_rounded_near(x);
    lemma_places(x);
    let unit = unit_of(x);
    lemma_unit_of(x);
    let z = rounded(x);
    assert(z >= (n - 1) * s) by {
        if places_beyond(x) == 0 {
            lemma2_to64();
            assert(unit == 1);
            assert(x / 1 == x);
            assert(z == x);
            assert(x >= (n - 1) * s) by (nonlinear_arith)
                requires
                    2 * x > (2 * n - 1) * s,
                    s > 0,
            ;
        } else {
            assert(unit <= s) by (nonlinear_arith)
                requires
                    x >= 0x10_0000_0000_0000 * unit,
                    2 * x < (2 * n + 1) * s,
                    n < 0x10_0000_0000_0000,
                    s > 0,
                    unit > 0,
            ;
            assert(z >= (n - 1) * s) by (nonlinear_arith)
                requires
                    2 * x <= 2 * z + unit,
                    2 * x > (2 * n - 1) * s,
                    unit <= s,
            ;
        }
    }
    lemma_mul_is_commutative((n - 1) as int, s as int);
    lemma_div_is_ordered((s * (n - 1)) as int, z as int, s as int);
    lemma_div_multiples_vanish((n - 1) as int, s as int);
}

/// So many times a quotient is near the exact product: at most one above it, and what is cut off
/// at most two below it.
pub proof fn a_multiple_is_near_the_exact_one(count: nat, n: nat, d: nat)
    requires
        0 < d < n < 0x10_0000_0000_0000,
        count <= d,
    ensures
        whole_multiple(count, n, d) * d <= count * n + d,
        whole_multiple(count, n, d) * d >= count * n - 2 * d,
{
    let s = pow2(1074);
    let q = scaled_quotient(n, d);
    lemma_pow2_pos(1074);
    lemma_quotient_bounds(n, d);
    lemma_exact(count);
    lemma_multiple_bound(count, n, d);
    let x = count * q;
    let z = rounded(x);
    let w = z / s;
    assert(2 * x < (2 * n + 1) * s) by (nonlinear_arith)
        requires
            x == count * q,
            count <= d,
            2 * (d * q) < (2 * n + 1) * s,
            q >= 0,
    ;
    lemma_rounded_near(x);
    lemma_places(x);
    lemma_unit_of(x);
    let unit = unit_of(x);
    if places_beyond(x) == 0 {
        lemma2_to64();
        assert(x / 1 == x);
    } else {
        assert(unit <= s) by (nonlinear_arith)
            requires
                x >= 0x10_0000_0000_0000 * unit,
                2 * x < (2 * n + 1) * s,
                n < 0x10_0000_0000_0000,
                s > 0,
                unit > 0,
        ;
    }
    assert(2 * x <= 2 * z + s && 2 * z <= 2 * x + s);
    assert(2 * (d * x) <= (2 * (count * n) + count) * s && 2 * (d * x) >= (2 * (count * n)
        - count) * s) by (nonlinear_arith)
        requires
            x == count * q,
            2 * (d * q) < (2 * n + 1) * s,
            2 * (d * q) > (2 * n - 1) * s,
            count >= 0,
    ;
    lemma_fundamental_div_mod(z as int, s as int);
    assert((w * d) * s < (count * n + d) * s + s && (w * d) * s > (count * n - 2 * d) * s - s)
        by (nonlinear_arith)
        requires
            2 * (d * x) <= (2 * (count * n) + count) * s,
            2 * (d * x) >= (2 * (count * n) - count) * s,
            2 * x <= 2 * z + s,
            2 * z <= 2 * x + s,
            z == s * w + z % s,
            0 <= z % s < s,
            count <= d,
            d > 0,
            s > 0,
    ;
    assert(w * d <= count * n + d && w * d >= count * n - 2 * d) by (nonlinear_arith)
        requires
            (w * d) * s < (count * n + d) * s + s,
            (w * d) * s > (count * n - 2 * d) * s - s,
            s > 0,
    ;
}

} // verus!
