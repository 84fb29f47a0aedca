//! What a spacecraft clock promises: the instant that its octets count.

use vstd::arithmetic::power2::*;
use vstd::prelude::*;

use crate::config::TimeFormat;
use crate::decoded::DecodedPacket;
use crate::float::{
    magnitude_bits, nanos_of_seconds, nearest_double, nearest_double_int, Float64,
};
use crate::laws::number::whole_seconds_are_whole_nanoseconds;
use crate::laws::text::shows;
use crate::sctime::{
    big_endian, cds_time, cuc_integer_time, cuc_time, pow256, seconds_time, undeclared_clock,
    value_time, SpacecraftClock,
};
use crate::time::Utc;
use crate::value::ValueView;

verus! {

/// Octets spell a number most significant first: one more octet at the end makes it 256 times as
/// large and adds the octet; leading zeros change nothing.
pub proof fn octets_are_digits(octets: Seq<u8>, octet: u8)
    ensures
        big_endian(Seq::<u8>::empty()) == 0,
        big_endian(octets.push(octet)) == big_endian(octets) * 256 + octet,
        big_endian(seq![octet]) == octet,
        big_endian(seq![0u8] + octets) == big_endian(octets),
    decreases octets.len(),
{
    assert(octets.push(octet).drop_last() =~= octets);
    assert(seq![octet].drop_last() =~= Seq::<u8>::empty());
    if octets.len() > 0 {
        octets_are_digits(octets.drop_last(), octet);
        assert((seq![0u8] + octets).drop_last() =~= seq![0u8] + octets.drop_last());
    } else {
        assert(seq![0u8] + octets =~= seq![0u8]);
        assert(seq![0u8].drop_last() =~= Seq::<u8>::empty());
    }
}

/// A CDS field is so many days, so many milliseconds of a day, and what is below the millisecond:
/// microseconds in two octets, picoseconds in four, nothing in none. The instant is the epoch and
/// all three together, whatever follows the field; none where the milliseconds are more than a day
/// and a leap second has, the width is another, or the instant cannot be named.
pub proof fn a_cds_counts_days_milliseconds_and_less(
    days: Seq<u8>,
    milliseconds: Seq<u8>,
    less: Seq<u8>,
    rest: Seq<u8>,
    epoch: Utc,
)
    requires
        1 <= days.len() <= 8,
        milliseconds.len() == 4,
        less.len() <= 255,
    ensures
        ({
            let field = days + milliseconds + less + rest;
            let time = cds_time(field, days.len() as u8, less.len() as u8, epoch);
            let nanos = if less.len() == 4 {
                big_endian(less) as int / 1_000
            } else {
                big_endian(less) as int * 1_000
            };
            let since = big_endian(days) * 86_400 * 1_000_000_000 + big_endian(milliseconds)
                * 1_000_000 + nanos;
            let readable = big_endian(milliseconds) < 86_401_000 && (less.len() == 0 || less.len()
                == 2 || less.len() == 4);
            &&& time is Some <==> readable && i64::MIN <= epoch.nanos() + since <= i64::MAX
            &&& time matches Some(instant) ==> instant.nanos() - epoch.nanos() == since
        }),
{
    let field = days + milliseconds + less + rest;
    let d = days.len() as int;
    assert(field.subrange(0, d) =~= days);
    assert(field.subrange(d, d + 4) =~= milliseconds);
    assert(field.subrange(d + 4, d + 4 + less.len()) =~= less);
    if less.len() == 0 {
        assert(less =~= Seq::<u8>::empty());
    }
}

/// One millisecond more of the day is a million nanoseconds more, however wide the field is below
/// the millisecond, and one day more is 86 400 seconds more.
pub proof fn a_cds_moves_with_its_parts(
    days: Seq<u8>,
    later_days: Seq<u8>,
    milliseconds: Seq<u8>,
    later: Seq<u8>,
    less: Seq<u8>,
    epoch: Utc,
)
    requires
        1 <= days.len() <= 8,
        later_days.len() == days.len(),
        milliseconds.len() == 4,
        later.len() == 4,
        less.len() <= 255,
        cds_time(days + milliseconds + less, days.len() as u8, less.len() as u8, epoch) is Some,
    ensures
        ({
            let before = cds_time(
                days + milliseconds + less,
                days.len() as u8,
                less.len() as u8,
                epoch,
            )->0;
            let after = cds_time(days + later + less, days.len() as u8, less.len() as u8, epoch);
            let next = cds_time(
                later_days + milliseconds + less,
                days.len() as u8,
                less.len() as u8,
                epoch,
            );
            &&& big_endian(later) == big_endian(milliseconds) + 1 && after is Some
                ==> after->0.nanos() == before.nanos() + 1_000_000
            &&& big_endian(later_days) == big_endian(days) + 1 && next is Some ==> next->0.nanos()
                == before.nanos() + 86_400_000_000_000
        }),
{
    let none = Seq::<u8>::empty();
    a_cds_counts_days_milliseconds_and_less(days, milliseconds, less, none, epoch);
    a_cds_counts_days_milliseconds_and_less(days, later, less, none, epoch);
    a_cds_counts_days_milliseconds_and_less(later_days, milliseconds, less, none, epoch);
    assert(days + milliseconds + less + none =~= days + milliseconds + less);
    assert(days + later + less + none =~= days + later + less);
    assert(later_days + milliseconds + less + none =~= later_days + milliseconds + less);
}

/// With what is below the millisecond cut off, a CDS gives the same instant but for that.
pub proof fn a_cds_without_its_submilliseconds(field: Seq<u8>, day_bytes: u8, width: u8, epoch: Utc)
    requires
        1 <= day_bytes <= 8,
        width == 2 || width == 4,
        cds_time(field, day_bytes, width, epoch) is Some,
        cds_time(field, day_bytes, 0, epoch) is Some,
    ensures
        ({
            let whole = cds_time(field, day_bytes, 0, epoch)->0.nanos();
            let exact = cds_time(field, day_bytes, width, epoch)->0.nanos();
            let less = big_endian(field.subrange(day_bytes + 4, day_bytes + 4 + width));
            &&& width == 2 ==> exact - whole == less * 1_000
            &&& width == 4 ==> exact - whole == less as int / 1_000
        }),
{
    assert(field.subrange(day_bytes + 4, day_bytes + 4) =~= Seq::<u8>::empty());
}

/// A CUC field is so many whole seconds and a binary fraction of one: the instant is the epoch and
/// both together, the fraction cut off to whole nanoseconds, whatever follows the field. None where
/// there are no seconds, more than eight octets, or an instant that cannot be named.
pub proof fn a_cuc_counts_seconds_and_a_fraction(
    coarse: Seq<u8>,
    fine: Seq<u8>,
    rest: Seq<u8>,
    epoch: Utc,
)
    requires
        coarse.len() <= 255,
        fine.len() <= 255,
    ensures
        ({
            let field = coarse + fine + rest;
            let time = cuc_time(field, coarse.len() as u8, fine.len() as u8, epoch);
            let readable = coarse.len() > 0 && coarse.len() + fine.len() <= 8;
            let since = big_endian(coarse) * 1_000_000_000 + (big_endian(fine) * 1_000_000_000)
                as int / pow256(fine.len()) as int;
            &&& time is Some <==> readable && i64::MIN <= epoch.nanos() + since <= i64::MAX
            &&& time matches Some(instant) ==> instant.nanos() - epoch.nanos() == since
        }),
{
    let field = coarse + fine + rest;
    assert(field.subrange(0, coarse.len() as int) =~= coarse);
    assert(field.subrange(coarse.len() as int, (coarse.len() + fine.len()) as int) =~= fine);
    lemma_pow256_positive(fine.len());
    vstd::arithmetic::div_mod::lemma_div_pos_is_pos(
        (big_endian(fine) * 1_000_000_000) as int,
        pow256(fine.len()) as int,
    );
}

/// A fraction of a CUC is of one second: half of what its octets hold is half a second, and so on.
/// Without fine octets an instant is on a whole second from the epoch.
pub proof fn a_cuc_fraction_is_of_one_second(coarse: Seq<u8>, fine: Seq<u8>, epoch: Utc)
    requires
        0 < coarse.len(),
        coarse.len() + fine.len() <= 8,
        cuc_time(coarse + fine, coarse.len() as u8, fine.len() as u8, epoch) is Some,
        cuc_time(coarse, coarse.len() as u8, 0, epoch) is Some,
    ensures
        ({
            let whole = cuc_time(coarse, coarse.len() as u8, 0, epoch)->0.nanos();
            let exact = cuc_time(
                coarse + fine,
                coarse.len() as u8,
                fine.len() as u8,
                epoch,
            )->0.nanos();
            &&& whole - epoch.nanos() == big_endian(coarse) * 1_000_000_000
            &&& whole <= exact
            &&& (exact - whole) * pow256(fine.len()) <= big_endian(fine) * 1_000_000_000 < (exact
                - whole + 1) * pow256(fine.len())
        }),
{
    let none = Seq::<u8>::empty();
    a_cuc_counts_seconds_and_a_fraction(coarse, fine, none, epoch);
    a_cuc_counts_seconds_and_a_fraction(coarse, none, none, epoch);
    assert(coarse + fine + none =~= coarse + fine);
    assert(coarse + none + none =~= coarse);
    let unit = pow256(fine.len()) as int;
    let scaled = big_endian(fine) * 1_000_000_000;
    lemma_pow256_positive(fine.len());
    vstd::arithmetic::div_mod::lemma_fundamental_div_mod(scaled as int, unit);
    vstd::arithmetic::div_mod::lemma_div_pos_is_pos(scaled as int, unit);
    let q = scaled as int / unit;
    let r = scaled as int % unit;
    assert(pow256(0) == 1);
    assert(q * unit == unit * q) by (nonlinear_arith);
    assert((q + 1) * unit == unit * q + unit) by (nonlinear_arith);
}

proof fn lemma_pow256_positive(n: nat)
    ensures
        pow256(n) >= 1,
    decreases n,
{
    if n > 0 {
        lemma_pow256_positive((n - 1) as nat);
    }
}

/// 256 to the power of a sum is the product: each octet more is 256 times as much.
pub proof fn an_octet_more_is_256_times_as_much(n: nat)
    ensures
        pow256(0) == 1,
        pow256(n + 1) == 256 * pow256(n),
{
}

/// A CUC that is one number counts its units of a fraction: the next whole second is 256 to the
/// fine octets further, and moves the instant by one second.
pub proof fn a_cuc_number_counts_its_units(value: nat, coarse_bytes: u8, fine_bytes: u8, epoch: Utc)
    requires
        cuc_integer_time(value, coarse_bytes, fine_bytes, epoch) is Some,
    ensures
        0 < coarse_bytes,
        coarse_bytes + fine_bytes <= 8,
        cuc_integer_time(value + pow256(fine_bytes as nat), coarse_bytes, fine_bytes, epoch) matches Some(
            later,
        ) ==> later.nanos() == cuc_integer_time(
            value,
            coarse_bytes,
            fine_bytes,
            epoch,
        )->0.nanos() + 1_000_000_000,
        value == 0 ==> cuc_integer_time(value, coarse_bytes, fine_bytes, epoch) == Some(epoch),
{
    let unit = pow256(fine_bytes as nat);
    lemma_pow256_positive(fine_bytes as nat);
    vstd::arithmetic::div_mod::lemma_fundamental_div_mod(value as int, unit as int);
    let q = value as int / unit as int;
    assert(value + unit == (q + 1) * unit + value as int % unit as int) by (nonlinear_arith)
        requires
            value == unit * q + value as int % unit as int,
    ;
    vstd::arithmetic::div_mod::lemma_fundamental_div_mod_converse(
        (value + unit) as int,
        unit as int,
        q + 1,
        value as int % unit as int,
    );
    if value == 0 {
        assert(0int / unit as int == 0) by (nonlinear_arith)
            requires
                unit >= 1,
        ;
        assert(0int % unit as int == 0) by (nonlinear_arith)
            requires
                unit >= 1,
        ;
        assert((0int * 1_000_000_000) / unit as int == 0);
    }
}

/// A clock reads the value it is told to, as the layout says: a CUC or a CDS from the bits of the
/// packet, as octets or as one number, and a count of seconds from what they stand for. A value of
/// any other kind is no time.
pub proof fn a_clock_reads_by_its_layout(raw: ValueView, eng: ValueView, a: u8, b: u8, epoch: Utc)
    ensures
        raw matches ValueView::Bytes(bytes) ==> value_time(
            TimeFormat::Cuc { coarse_bytes: a, fine_bytes: b, epoch },
            raw,
            eng,
        ) == cuc_time(bytes, a, b, epoch),
        raw matches ValueView::Bytes(bytes) ==> value_time(
            TimeFormat::Cds { day_bytes: a, submillisecond_bytes: b, epoch },
            raw,
            eng,
        ) == cds_time(bytes, a, b, epoch),
        raw matches ValueView::Unsigned(number) ==> value_time(
            TimeFormat::Cuc { coarse_bytes: a, fine_bytes: b, epoch },
            raw,
            eng,
        ) == cuc_integer_time(number as nat, a, b, epoch),
        !(raw is Bytes) && !(raw is Unsigned) ==> value_time(
            TimeFormat::Cuc { coarse_bytes: a, fine_bytes: b, epoch },
            raw,
            eng,
        ) is None && value_time(
            TimeFormat::Cds { day_bytes: a, submillisecond_bytes: b, epoch },
            raw,
            eng,
        ) is None,
        raw is Unsigned && a + 4 + b > 8 ==> value_time(
            TimeFormat::Cds { day_bytes: a, submillisecond_bytes: b, epoch },
            raw,
            eng,
        ) is None,
        eng matches ValueView::Float(seconds) ==> value_time(
            TimeFormat::Seconds { epoch },
            raw,
            eng,
        ) == seconds_time(seconds, epoch),
        eng matches ValueView::Unsigned(count) ==> value_time(
            TimeFormat::Seconds { epoch },
            raw,
            eng,
        ) == seconds_time(nearest_double(count as nat), epoch),
        eng matches ValueView::Signed(count) ==> value_time(
            TimeFormat::Seconds { epoch },
            raw,
            eng,
        ) == seconds_time(nearest_double_int(count as int), epoch),
        eng is Label || eng is Text || eng is Bytes ==> value_time(
            TimeFormat::Seconds { epoch },
            raw,
            eng,
        ) is None,
{
}

/// A count of seconds is an instant exactly where it is a number of nanoseconds that takes the epoch
/// to one there is; and then it is that far from the epoch.
pub proof fn a_count_of_seconds_is_an_instant(seconds: Float64, epoch: Utc)
    ensures
        seconds_time(seconds, epoch) is Some <==> (nanos_of_seconds(seconds) matches Some(nanos)
            && i64::MIN <= epoch.nanos() + nanos <= i64::MAX),
        seconds_time(seconds, epoch) matches Some(time) ==> nanos_of_seconds(seconds) == Some(
            time.nanos() - epoch.nanos(),
        ),
{
}

/// A count of seconds is that long after its epoch, and before it where it is below zero: a whole
/// number of them to the nanosecond. What is not finite, or out of range, is no time.
pub proof fn a_count_of_seconds_is_that_long(seconds: Float64, count: nat, epoch: Utc)
    ensures
        magnitude_bits(seconds.bits) >= 0x7ff0_0000_0000_0000 ==> seconds_time(seconds, epoch)
            is None,
        seconds.bits < 0x7ff0_0000_0000_0000 && seconds.scaled() == count * pow2(1074) && count
            * 1_000_000_000 < 0x20_0000_0000_0000 ==> ({
            let later = seconds_time(seconds, epoch);
            let since = (count * 1_000_000_000) as int;
            let before = seconds_time(
                Float64 { bits: (seconds.bits + 0x8000_0000_0000_0000) as u64 },
                epoch,
            );
            &&& later is Some <==> epoch.nanos() + since <= i64::MAX
            &&& later matches Some(time) ==> time.nanos() == epoch.nanos() + since
            &&& before is Some <==> epoch.nanos() - since >= i64::MIN
            &&& before matches Some(time) ==> time.nanos() == epoch.nanos() - since
        }),
{
    if seconds.bits < 0x7ff0_0000_0000_0000 && seconds.scaled() == count * pow2(1074) && count
        * 1_000_000_000 < 0x20_0000_0000_0000 {
        whole_seconds_are_whole_nanoseconds(seconds, count);
    }
}

/// A packet is read at the place given for the clock, and only where that holds the clock.
pub proof fn a_packet_is_read_at_its_place(clock: SpacecraftClock, packet: &DecodedPacket)
    ensures
        packet.clock is None ==> clock.reading(packet) is None,
        packet.clock matches Some(place) ==> (place >= packet.values@.len() ==> clock.reading(packet)
            is None),
        packet.clock matches Some(place) ==> (place < packet.values@.len()
            && packet.values@[place as int].parameter != clock.source() ==> clock.reading(packet)
            is None),
        packet.clock matches Some(place) ==> (place < packet.values@.len()
            && packet.values@[place as int].parameter == clock.source() ==> clock.reading(packet)
            == value_time(
            clock.layout(),
            packet.values@[place as int].raw@,
            packet.values@[place as int].eng@,
        )),
{
}

/// A clock that no definition declares is refused by the name it was given.
pub proof fn an_undeclared_clock_is_named(name: Seq<char>)
    ensures
        shows(undeclared_clock(name), " no parameter named `"@, name, "`"@),
{
    reveal_strlit("spacecraft_time.parameter: the definition declares no parameter named `");
    reveal_strlit(" no parameter named `");
    let head = "spacecraft_time.parameter: the definition declares no parameter named `"@;
    let none = Seq::<char>::empty();
    assert(head =~= head.take(50) + " no parameter named `"@);
    assert(undeclared_clock(name) =~= head.take(50) + " no parameter named `"@ + name + "`"@
        + none);
}

} // verus!
