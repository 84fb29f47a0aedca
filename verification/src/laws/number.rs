//! What doubles promise: their order, and what whole numbers and seconds become.

use vstd::arithmetic::div_mod::*;
use vstd::arithmetic::mul::*;
use vstd::arithmetic::power2::*;
use vstd::prelude::*;

use crate::float::{
    lemma_key_orders, lemma_rounding_scales, lemma_unit_of, magnitude_bits, nanos_of_seconds,
    nearest_double, nearest_double_int, rounded, rounded_int, scaled_magnitude, unit_of,
    whole_number, Float64,
};
use crate::ratio::{
    lemma_places, lemma_rounded_near, nanos_cut_off, places_beyond, quotient, rounded_ratio,
    scaled_quotient, seconds_of, whole_multiple,
};
use crate::value::{number_of, same_value, ValueView};

verus! {

/// Doubles are ordered as IEEE 754 orders them: without a sign by their bits, with one the other
/// way round, below zero before above it, and the two zeros the same. What is not a number is in no
/// order.
pub proof fn doubles_are_ordered_by_their_bits(a: Float64, b: Float64)
    ensures
        a.bits < 0x8000_0000_0000_0000 && b.bits < 0x8000_0000_0000_0000 && !a.nan() && !b.nan() ==> (
        a.below(b) <==> a.bits < b.bits),
        a.bits >= 0x8000_0000_0000_0000 && b.bits >= 0x8000_0000_0000_0000 && !a.nan() && !b.nan()
            ==> (a.below(b) <==> a.bits > b.bits),
        a.bits > 0x8000_0000_0000_0000 && b.bits < 0x8000_0000_0000_0000 && !a.nan() && !b.nan()
            ==> a.below(b) && !b.below(a),
        (Float64 { bits: 0 }).equal(Float64 { bits: 0x8000_0000_0000_0000 }),
        a.nan() || b.nan() ==> !a.below(b) && !a.at_most(b) && !a.equal(b),
        !a.nan() && !b.nan() ==> (a.at_most(b) <==> !b.below(a)) && (a.equal(b) <==> a.at_most(b)
            && b.at_most(a)),
        a.nan() <==> a.bits % 0x8000_0000_0000_0000 > 0x7ff0_0000_0000_0000,
{
    lemma_key_orders(a, b);
    lemma_key_orders(Float64 { bits: 0 }, Float64 { bits: 0x8000_0000_0000_0000 });
}

/// A number is rounded to the nearest that fifty-three binary digits hold: by no more than half of
/// what its last digit counts, to a whole number of those. What has no more digits is left as it is.
pub proof fn rounding_goes_to_the_nearest(n: nat)
    ensures
        2 * rounded(n) <= 2 * n + unit_of(n),
        2 * n <= 2 * rounded(n) + unit_of(n),
        rounded(n) % unit_of(n) == 0,
        n < 0x20_0000_0000_0000 ==> rounded(n) == n,
        n >= 0x20_0000_0000_0000 ==> 0x10_0000_0000_0000 * unit_of(n) <= n
            < 0x20_0000_0000_0000 * unit_of(n),
        unit_of(n) == pow2(places_beyond(n)),
        rounded_int(-(n as int)) == -(rounded(n) as int),
        rounded_int(n as int) == rounded(n),
{
    lemma_rounded_near(n);
    lemma_unit_of(n);
    lemma_places(n);
    let unit = unit_of(n);
    let below = n / unit;
    lemma_mod_multiples_basic(below as int, unit as int);
    lemma_mod_multiples_basic((below + 1) as int, unit as int);
    if n < 0x20_0000_0000_0000 {
        assert(unit == 1);
    }
    if n == 0 {
        assert(rounded(0) == 0);
    }
}

/// Halfway between two numbers that can be held, the one whose last digit is even is taken.
pub proof fn halves_go_to_the_even(below: nat, unit: nat, n: nat)
    requires
        unit == unit_of(n),
        unit > 1,
        unit % 2 == 0,
        n == below * unit + unit / 2,
    ensures
        below % 2 == 0 ==> rounded(n) == below * unit,
        below % 2 == 1 ==> rounded(n) == (below + 1) * unit,
{
    lemma_fundamental_div_mod_converse(n as int, unit as int, below as int, (unit / 2) as int);
}

/// A whole number of seconds is that many billion nanoseconds, whichever way it is counted, before
/// the epoch and behind it.
pub proof fn whole_seconds_are_whole_nanoseconds(seconds: Float64, count: nat)
    requires
        seconds.bits < 0x7ff0_0000_0000_0000,
        seconds.scaled() == count * pow2(1074),
        count * 1_000_000_000 < 0x20_0000_0000_0000,
    ensures
        nanos_of_seconds(seconds) == Some((count * 1_000_000_000) as int),
        nanos_cut_off(seconds) == count * 1_000_000_000,
        nanos_of_seconds(Float64 { bits: (seconds.bits + 0x8000_0000_0000_0000) as u64 }) == Some(
            -((count * 1_000_000_000) as int),
        ),
        nanos_cut_off(Float64 { bits: (seconds.bits + 0x8000_0000_0000_0000) as u64 }) == -(count
            * 1_000_000_000),
{
    let s = pow2(1074);
    let n = count * 1_000_000_000;
    lemma_pow2_pos(1074);
    assert((count * s) * 1_000_000_000 == n * s) by (nonlinear_arith)
        requires
            n == count * 1_000_000_000,
    ;
    lemma_rounding_scales(n, 1074);
    rounding_goes_to_the_nearest(n);
    let negative = Float64 { bits: (seconds.bits + 0x8000_0000_0000_0000) as u64 };
    assert(magnitude_bits(seconds.bits) == seconds.bits);
    assert(magnitude_bits(negative.bits) == seconds.bits);
    assert(rounded(scaled_magnitude(magnitude_bits(seconds.bits)) * 1_000_000_000) == n * s);
    assert((2 * (n * s) + s) / (2 * s) == n) by {
        assert(2 * (n * s) + s == (2 * s) * n + s) by (nonlinear_arith);
        lemma_fundamental_div_mod_converse(
            (2 * (n * s) + s) as int,
            (2 * s) as int,
            n as int,
            s as int,
        );
    }
    assert((n * s) / s == n) by {
        lemma_div_multiples_vanish(n as int, s as int);
        lemma_mul_is_commutative(n as int, s as int);
    }
}

/// What is not finite is no number of nanoseconds, and what is too large to count is none either.
/// Cut off instead, it stops at the ends.
pub proof fn seconds_that_cannot_be_counted(seconds: Float64)
    ensures
        magnitude_bits(seconds.bits) >= 0x7ff0_0000_0000_0000 ==> nanos_of_seconds(seconds) is None,
        seconds.nan() ==> nanos_cut_off(seconds) == 0,
        nanos_of_seconds(seconds) matches Some(n) ==> -0x8000_0000_0000_0000 < n
            < 0x8000_0000_0000_0000,
        i64::MIN <= nanos_cut_off(seconds) <= i64::MAX,
        nanos_of_seconds(seconds) matches Some(n) ==> (seconds.bits < 0x8000_0000_0000_0000 ==> n
            >= 0) && (seconds.bits >= 0x8000_0000_0000_0000 ==> n <= 0),
{
    lemma_pow2_pos(1074);
    let size = rounded(scaled_magnitude(magnitude_bits(seconds.bits)) * 1_000_000_000);
    lemma_div_pos_is_pos(size as int, pow2(1074) as int);
}

/// A whole number of units is the nearest to what was counted, by no more than half of one.
pub proof fn a_whole_number_is_the_nearest(scaled: nat)
    ensures
        2 * (whole_number(scaled) * pow2(1074)) <= 2 * scaled + pow2(1074),
        2 * scaled < 2 * (whole_number(scaled) * pow2(1074)) + pow2(1074),
{
    let s = pow2(1074);
    lemma_pow2_pos(1074);
    let w = whole_number(scaled);
    lemma_fundamental_div_mod((2 * scaled + s) as int, (2 * s) as int);
    assert((2 * s) * w == 2 * (w * s)) by (nonlinear_arith);
}

/// A quotient is rounded to the nearest that can be held.
pub proof fn a_quotient_is_the_nearest(n: nat, d: nat)
    requires
        d > 0,
    ensures
        2 * (rounded_ratio(n, d) * d) <= 2 * n + d * unit_of(n / d),
        2 * n <= 2 * (rounded_ratio(n, d) * d) + d * unit_of(n / d),
{
    let unit = unit_of(n / d);
    lemma_unit_of(n / d);
    let step = d * unit;
    assert(step > 0) by (nonlinear_arith)
        requires
            step == d * unit,
            d > 0,
            unit > 0,
    ;
    let below = n / step;
    lemma_fundamental_div_mod(n as int, step as int);
    assert((below * unit) * d == step * below) by (nonlinear_arith)
        requires
            step == d * unit,
    ;
    assert(((below + 1) * unit) * d == step * below + step) by (nonlinear_arith)
        requires
            step == d * unit,
    ;
}

/// Whole numbers that doubles hold are divided exactly where they divide: so many times a divisor,
/// divided by it, is that many.
pub proof fn what_divides_is_divided_exactly(times: nat, d: nat)
    requires
        d > 0,
        times * d < 0x20_0000_0000_0000,
        times < 0x20_0000_0000_0000,
        d < 0x20_0000_0000_0000,
    ensures
        scaled_quotient(times * d, d) == times * pow2(1074),
{
    let s = pow2(1074);
    lemma_pow2_pos(1074);
    rounding_goes_to_the_nearest(times * d);
    rounding_goes_to_the_nearest(d);
    let n = (times * d) * s;
    assert(n == (times * s) * d) by (nonlinear_arith)
        requires
            n == (times * d) * s,
    ;
    lemma_div_multiples_vanish((times * s) as int, d as int);
    lemma_mul_is_commutative((times * s) as int, d as int);
    assert(n / d == times * s);
    let unit = unit_of(times * s);
    lemma_unit_of(times * s);
    lemma_rounding_scales(times, 1074);
    rounding_goes_to_the_nearest(times);
    rounding_goes_to_the_nearest(times * s);
    let k = (times * s) / unit;
    lemma_fundamental_div_mod((times * s) as int, unit as int);
    assert(times * s == unit * k);
    assert(n == (d * unit) * k) by (nonlinear_arith)
        requires
            n == (times * s) * d,
            times * s == unit * k,
    ;
    assert(d * unit > 0) by (nonlinear_arith)
        requires
            d > 0,
            unit > 0,
    ;
    assert(n == k * (d * unit)) by (nonlinear_arith)
        requires
            n == (d * unit) * k,
    ;
    lemma_fundamental_div_mod_converse(n as int, (d * unit) as int, k as int, 0);
    assert(k * unit == unit * k) by (nonlinear_arith);
}

/// A value on an axis is its number: an integer as the nearest double, a boolean as one or zero; and
/// a label, a text or bytes have no place on one.
pub proof fn a_value_has_its_number(value: ValueView)
    ensures
        value matches ValueView::Unsigned(n) ==> number_of(value) == Some(nearest_double(n as nat)),
        value matches ValueView::Signed(n) ==> number_of(value) == Some(
            nearest_double_int(n as int),
        ),
        value matches ValueView::Float(x) ==> number_of(value) == Some(x),
        value == ValueView::Bool(true) ==> number_of(value) == Some(nearest_double(1)),
        value == ValueView::Bool(false) ==> number_of(value) == Some(nearest_double(0)),
        value is Label || value is Text || value is Bytes ==> number_of(value) is None,
{
}

/// A signed integer below zero is the double of its size with the sign.
pub proof fn a_negative_integer_has_the_sign(n: int)
    requires
        n < 0,
        nearest_double((-n) as nat).bits < 0x8000_0000_0000_0000,
    ensures
        nearest_double_int(n).bits == nearest_double((-n) as nat).bits + 0x8000_0000_0000_0000,
        nearest_double_int(-n) == nearest_double((-n) as nat),
{
}

/// Values are the same only within a kind, and there exactly where they are equal; two that are not
/// numbers are not the same.
pub proof fn values_are_the_same_within_a_kind(a: ValueView, b: ValueView)
    ensures
        same_value(a, b) ==> (a is Float <==> b is Float),
        !(a is Float) && !(b is Float) ==> (same_value(a, b) <==> a == b),
        a is Float && b is Float ==> (same_value(a, b) <==> a->Float_0.at_most(b->Float_0)
            && b->Float_0.at_most(a->Float_0)),
        a is Float && a->Float_0.nan() ==> !same_value(a, a),
{
}

/// Seconds are cut off to the nanosecond: the count is no more than a billion times the seconds, as a
/// double, and less than one below it.
pub proof fn nanoseconds_are_cut_off(seconds: Float64)
    requires
        seconds.bits < 0x7ff0_0000_0000_0000,
    ensures
        ({
            let billionfold = rounded((seconds.scaled() * 1_000_000_000) as nat);
            let cut = nanos_cut_off(seconds);
            let other = nanos_cut_off(
                Float64 { bits: (seconds.bits + 0x8000_0000_0000_0000) as u64 },
            );
            &&& cut >= 0
            &&& cut < i64::MAX ==> cut * pow2(1074) <= billionfold < (cut + 1) * pow2(1074)
            &&& cut == i64::MAX ==> cut * pow2(1074) <= billionfold
            &&& cut < i64::MAX ==> other == -cut
        }),
{
    let s = pow2(1074) as int;
    lemma_pow2_pos(1074);
    assert(magnitude_bits(seconds.bits) == seconds.bits);
    let billionfold = rounded(scaled_magnitude(magnitude_bits(seconds.bits)) * 1_000_000_000) as int;
    let negative = Float64 { bits: (seconds.bits + 0x8000_0000_0000_0000) as u64 };
    assert(magnitude_bits(negative.bits) == seconds.bits);
    let size = billionfold / s;
    lemma_fundamental_div_mod(billionfold, s);
    lemma_div_pos_is_pos(billionfold, s);
    assert(size * s <= billionfold < (size + 1) * s) by (nonlinear_arith)
        requires
            billionfold == s * size + billionfold % s,
            0 <= billionfold % s < s,
    ;
    if size >= 0x8000_0000_0000_0000 {
        assert(i64::MAX * s <= size * s) by (nonlinear_arith)
            requires
                size >= i64::MAX,
                s > 0,
        ;
    }
}

/// Seconds are rounded to the nanosecond where they are a clock's: the count is within half a
/// nanosecond of a billion times the seconds, as a double.
pub proof fn nanoseconds_are_rounded(seconds: Float64)
    requires
        seconds.bits < 0x7ff0_0000_0000_0000,
    ensures
        ({
            let billionfold = rounded((seconds.scaled() * 1_000_000_000) as nat);
            nanos_of_seconds(seconds) matches Some(count) ==> count >= 0 && 2 * (count * pow2(1074))
                <= 2 * billionfold + pow2(1074) && 2 * billionfold < 2 * (count * pow2(1074))
                + pow2(1074)
        }),
        nanos_of_seconds(seconds) matches Some(count) ==> nanos_of_seconds(
            Float64 { bits: (seconds.bits + 0x8000_0000_0000_0000) as u64 },
        ) == Some(-count),
        nanos_of_seconds(seconds) is None ==> rounded((seconds.scaled() * 1_000_000_000) as nat)
            >= 0x7fff_ffff_ffff_ffff * pow2(1074),
{
    let s = pow2(1074);
    lemma_pow2_pos(1074);
    assert(magnitude_bits(seconds.bits) == seconds.bits);
    let negative = Float64 { bits: (seconds.bits + 0x8000_0000_0000_0000) as u64 };
    assert(magnitude_bits(negative.bits) == seconds.bits);
    let billionfold = rounded(scaled_magnitude(magnitude_bits(seconds.bits)) * 1_000_000_000);
    a_whole_number_is_the_nearest(billionfold);
    let w = whole_number(billionfold);
    if w >= 0x8000_0000_0000_0000 {
        assert(billionfold >= 0x7fff_ffff_ffff_ffff * s) by (nonlinear_arith)
            requires
                2 * (w * s) <= 2 * billionfold + s,
                w >= 0x8000_0000_0000_0000,
                s > 0,
        ;
    }
}

/// There is one double for a number that doubles hold, and it is the one that is taken.
pub proof fn a_number_has_one_double(f: Float64, n: nat, d: nat)
    requires
        f.bits < 0x7ff0_0000_0000_0000,
    ensures
        f.scaled() == rounded(n) * pow2(1074) ==> nearest_double(n) == f,
        d > 0 && f.scaled() == scaled_quotient(n, d) ==> quotient(n, d) == f,
{
    if f.scaled() == rounded(n) * pow2(1074) {
        lemma_key_orders(f, nearest_double(n));
    }
    if f.scaled() == scaled_quotient(n, d) {
        lemma_key_orders(f, quotient(n, d));
    }
}

/// A quotient of whole numbers that doubles hold is within half a digit of the exact one.
pub proof fn a_quotient_is_near_the_exact_one(n: nat, d: nat)
    requires
        0 < d < 0x20_0000_0000_0000,
        n < 0x20_0000_0000_0000,
    ensures
        ({
            let exact = n * pow2(1074);
            let q = scaled_quotient(n, d);
            &&& 2 * (q * d) <= 2 * exact + d * unit_of(exact / d)
            &&& 2 * exact <= 2 * (q * d) + d * unit_of(exact / d)
        }),
{
    rounding_goes_to_the_nearest(n);
    rounding_goes_to_the_nearest(d);
    a_quotient_is_the_nearest(n * pow2(1074), d);
}

/// An instant on an axis is its nanoseconds divided by a billion, and one before the epoch is as far
/// on the other side.
pub proof fn an_instant_is_its_seconds(nanos: nat)
    ensures
        seconds_of(nanos as int) == quotient(nanos, 1_000_000_000),
        nanos > 0 && quotient(nanos, 1_000_000_000).bits < 0x8000_0000_0000_0000 ==> seconds_of(
            -(nanos as int),
        ).bits == seconds_of(nanos as int).bits + 0x8000_0000_0000_0000,
{
}

/// So many times a quotient is the double nearest to the product of two doubles, cut off to a whole
/// number.
pub proof fn a_multiple_is_cut_off(count: nat, n: nat, d: nat)
    requires
        count < 0x20_0000_0000_0000,
    ensures
        ({
            let product = rounded(count * scaled_quotient(n, d));
            let whole = whole_multiple(count, n, d);
            whole * pow2(1074) <= product < (whole + 1) * pow2(1074)
        }),
{
    rounding_goes_to_the_nearest(count);
    lemma_pow2_pos(1074);
    let s = pow2(1074) as int;
    let product = rounded(count * scaled_quotient(n, d)) as int;
    let whole = product / s;
    lemma_fundamental_div_mod(product, s);
    assert(whole * s <= product < (whole + 1) * s) by (nonlinear_arith)
        requires
            product == s * whole + product % s,
            0 <= product % s < s,
    ;
}

} // verus!
