//! Spacecraft time: what the packet says about when it was made.
//!
//! A session may name one parameter as the clock, and this module is what turns that
//! parameter's bits into a [`Utc`]. It does not guess the layout, does not model leap seconds,
//! and does not calibrate: a CUC or CDS is read from the raw bits, and a count of seconds from
//! the engineering value.

use vstd::arithmetic::div_mod::*;
use vstd::arithmetic::mul::*;
use vstd::prelude::*;
use vstd::string::*;

use crate::config::{TimeFormat, TimeSource};
use crate::decoded::DecodedPacket;
use crate::error::{EngineError, EngineErrorView};
use crate::float::{nanos_of_seconds, Float64};
use crate::ids::ParamId;
use crate::time::Utc;
use crate::value::{number_of, EngValue, RawValue, Value, ValueView};

verus! {

/// Nanoseconds in a second.
pub const NANOS_PER_SECOND: i64 = 1_000_000_000;

/// Octets of milliseconds-of-day in a CDS field. Always four, by CCSDS 301.0-B-4.
pub const CDS_MILLISECONDS_BYTES: usize = 4;

/// The most bytes one big-endian read may cover.
pub const MAX_TIME_BYTES: usize = 8;

/// Milliseconds in a day, plus the one leap second this clock does not model.
pub const MAX_MILLISECONDS_OF_DAY: u64 = 86_401_000;

/// The number that octets spell, most significant first.
pub open spec fn big_endian(octets: Seq<u8>) -> nat
    decreases octets.len(),
{
    if octets.len() == 0 {
        0
    } else {
        big_endian(octets.drop_last()) * 256 + octets.last() as nat
    }
}

/// 256 to a power.
pub open spec fn pow256(n: nat) -> nat
    decreases n,
{
    if n == 0 {
        1
    } else {
        256 * pow256((n - 1) as nat)
    }
}

/// The low `count` octets of a number, most significant first.
pub open spec fn octets_of(value: nat, count: nat) -> Seq<u8>
    decreases count,
{
    if count == 0 {
        Seq::empty()
    } else {
        octets_of(value / 256, (count - 1) as nat).push((value % 256) as u8)
    }
}

/// An epoch moved by a count of nanoseconds, when the result is in the range of [`Utc`].
pub open spec fn moved(epoch: Utc, nanos: int) -> Option<Utc> {
    let total = epoch.nanos() + nanos;
    if i64::MIN <= total <= i64::MAX {
        Some(Utc(total as i64))
    } else {
        None
    }
}

/// Nanoseconds from the two fields of a CUC: whole seconds, and a binary fraction of one.
pub open spec fn cuc_nanos_of(coarse: nat, fine: nat, fine_bytes: nat) -> nat {
    coarse * 1_000_000_000 + (fine * 1_000_000_000) / pow256(fine_bytes)
}

/// Whether a CUC has a layout that can be read: some seconds, and no more than eight octets.
pub open spec fn cuc_readable(coarse_bytes: u8, fine_bytes: u8) -> bool {
    coarse_bytes > 0 && coarse_bytes + fine_bytes <= 8
}

/// The instant of a CUC field at the front of some bytes.
pub open spec fn cuc_time(bytes: Seq<u8>, coarse_bytes: u8, fine_bytes: u8, epoch: Utc) -> Option<
    Utc,
> {
    if cuc_readable(coarse_bytes, fine_bytes) && coarse_bytes + fine_bytes <= bytes.len() {
        let coarse = big_endian(bytes.subrange(0, coarse_bytes as int));
        let fine = big_endian(
            bytes.subrange(coarse_bytes as int, coarse_bytes + fine_bytes),
        );
        moved(epoch, cuc_nanos_of(coarse, fine, fine_bytes as nat) as int)
    } else {
        None
    }
}

/// The instant of a CUC that is one number, the fraction in its low octets.
pub open spec fn cuc_integer_time(
    value: nat,
    coarse_bytes: u8,
    fine_bytes: u8,
    epoch: Utc,
) -> Option<Utc> {
    if cuc_readable(coarse_bytes, fine_bytes) {
        let unit = pow256(fine_bytes as nat);
        moved(epoch, cuc_nanos_of(value / unit, value % unit, fine_bytes as nat) as int)
    } else {
        None
    }
}

/// Nanoseconds of a CDS submillisecond field: microseconds in two octets, picoseconds in four.
pub open spec fn submillisecond_of(field: Seq<u8>) -> Option<nat> {
    if field.len() == 0 {
        Some(0)
    } else if field.len() == 2 {
        Some(big_endian(field) * 1_000)
    } else if field.len() == 4 {
        Some(big_endian(field) / 1_000)
    } else {
        None
    }
}

/// The instant of a CDS field at the front of some bytes: days, milliseconds of day, and what
/// is below the millisecond.
pub open spec fn cds_time(
    bytes: Seq<u8>,
    day_bytes: u8,
    submillisecond_bytes: u8,
    epoch: Utc,
) -> Option<Utc> {
    let width = day_bytes + 4 + submillisecond_bytes;
    if 1 <= day_bytes <= 8 && width <= bytes.len() {
        let days = big_endian(bytes.subrange(0, day_bytes as int));
        let milliseconds = big_endian(bytes.subrange(day_bytes as int, day_bytes + 4));
        let below = submillisecond_of(bytes.subrange(day_bytes + 4, width));
        if milliseconds < 86_401_000 && below is Some {
            moved(epoch, (days * 86_400_000_000_000 + milliseconds * 1_000_000 + below->0) as int)
        } else {
            None
        }
    } else {
        None
    }
}

/// The instant of a count of seconds from an epoch.
pub open spec fn seconds_time(seconds: Float64, epoch: Utc) -> Option<Utc> {
    match nanos_of_seconds(seconds) {
        Some(nanos) => moved(epoch, nanos),
        None => None,
    }
}

/// The instant that the two values of a clock parameter stand for.
pub open spec fn value_time(format: TimeFormat, raw: ValueView, eng: ValueView) -> Option<Utc> {
    match format {
        TimeFormat::Cuc { coarse_bytes, fine_bytes, epoch } => match raw {
            ValueView::Bytes(bytes) => cuc_time(bytes, coarse_bytes, fine_bytes, epoch),
            ValueView::Unsigned(value) => cuc_integer_time(
                value as nat,
                coarse_bytes,
                fine_bytes,
                epoch,
            ),
            _ => None,
        },
        TimeFormat::Cds { day_bytes, submillisecond_bytes, epoch } => match raw {
            ValueView::Bytes(bytes) => cds_time(bytes, day_bytes, submillisecond_bytes, epoch),
            ValueView::Unsigned(value) => {
                let width = day_bytes + 4 + submillisecond_bytes;
                if width <= 8 {
                    cds_time(
                        octets_of(value as nat, width as nat),
                        day_bytes,
                        submillisecond_bytes,
                        epoch,
                    )
                } else {
                    None
                }
            },
            _ => None,
        },
        TimeFormat::Seconds { epoch } => match number_of(eng) {
            Some(seconds) => seconds_time(seconds, epoch),
            None => None,
        },
    }
}

proof fn lemma_pow256(n: nat)
    ensures
        pow256(n) >= 1,
        n <= 8 ==> pow256(n) <= 0x1_0000_0000_0000_0000,
        n < 8 ==> pow256(n) <= 0x100_0000_0000_0000,
{
    lemma_pow256_increases(n, 8);
    lemma_pow256_increases(n, 7);
    reveal_with_fuel(pow256, 9);
}

proof fn lemma_pow256_increases(a: nat, b: nat)
    ensures
        pow256(a) >= 1,
        a <= b ==> pow256(a) <= pow256(b),
    decreases a + b,
{
    if a > 0 {
        lemma_pow256_increases((a - 1) as nat, b);
    }
    if a < b {
        lemma_pow256_increases(a, (b - 1) as nat);
    }
}

proof fn lemma_big_endian_bound(octets: Seq<u8>)
    ensures
        big_endian(octets) < pow256(octets.len()),
    decreases octets.len(),
{
    if octets.len() > 0 {
        lemma_big_endian_bound(octets.drop_last());
    }
}

proof fn lemma_big_endian_concat(a: Seq<u8>, b: Seq<u8>)
    ensures
        big_endian(a + b) == big_endian(a) * pow256(b.len()) + big_endian(b),
    decreases b.len(),
{
    if b.len() == 0 {
        assert(a + b =~= a);
        lemma_mul_basics(big_endian(a) as int);
    } else {
        assert((a + b).drop_last() =~= a + b.drop_last());
        lemma_big_endian_concat(a, b.drop_last());
        let x = big_endian(a);
        let p = pow256((b.len() - 1) as nat);
        assert(x * (256 * p) == (x * p) * 256) by (nonlinear_arith);
    }
}

/// Reads up to eight big-endian octets as an unsigned integer. Longer input loses its leading
/// octets.
pub fn be_unsigned(bytes: &[u8]) -> (r: u64)
    ensures
        r == big_endian(bytes@) % 0x1_0000_0000_0000_0000,
        bytes@.len() <= 8 ==> r == big_endian(bytes@),
        bytes@.len() <= 4 ==> r < 0x1_0000_0000,
{
    let mut value: u64 = 0;
    let mut index: usize = 0;
    assert(bytes@.take(0) =~= Seq::<u8>::empty());
    while index < bytes.len()
        invariant
            index <= bytes@.len(),
            value == big_endian(bytes@.take(index as int)) % 0x1_0000_0000_0000_0000,
        decreases bytes@.len() - index,
    {
        proof {
            assert(bytes@.take(index + 1).drop_last() =~= bytes@.take(index as int));
            lemma_shift_in(big_endian(bytes@.take(index as int)), bytes@[index as int]);
        }
        value = (value % 0x100_0000_0000_0000) * 256 + bytes[index] as u64;
        index = index + 1;
    }
    proof {
        assert(bytes@.take(index as int) =~= bytes@);
        lemma_big_endian_bound(bytes@);
        lemma_pow256(bytes@.len());
        lemma_pow256_increases(bytes@.len(), 4);
        reveal_with_fuel(pow256, 5);
    }
    value
}

proof fn lemma_shift_in(wide: nat, octet: u8)
    ensures
        (wide * 256 + octet) % 0x1_0000_0000_0000_0000 == ((wide % 0x1_0000_0000_0000_0000)
            % 0x100_0000_0000_0000) * 256 + octet,
{
    let q = wide / 0x100_0000_0000_0000;
    let r = wide % 0x100_0000_0000_0000;
    lemma_fundamental_div_mod(wide as int, 0x100_0000_0000_0000);
    lemma_fundamental_div_mod_converse(
        (wide * 256 + octet) as int,
        0x1_0000_0000_0000_0000,
        q as int,
        (r * 256 + octet) as int,
    );
    lemma_mod_mod(wide as int, 0x100_0000_0000_0000, 256);
}

/// An epoch moved by a count of nanoseconds, or `None` when the result leaves [`Utc`].
///
/// A saturated stamp is the year 2262 on a plot axis, which reads as a bug in the station
/// rather than as a bad time field; so the addition is wide and the narrowing is the check.
fn instant(epoch: Utc, nanos: i128) -> (r: Option<Utc>)
    requires
        -0x1_0000_0000_0000_0000_0000_0000_0000 <= nanos <= 0x1_0000_0000_0000_0000_0000_0000_0000,
    ensures
        r == moved(epoch, nanos as int),
{
    let total: i128 = epoch.unix_nanos() as i128 + nanos;
    if total < i64::MIN as i128 || total > i64::MAX as i128 {
        return None;
    }
    Some(Utc::from_unix_nanos(total as i64))
}

/// 256 to a power of at most eight.
fn power_of_256(n: usize) -> (r: u128)
    requires
        n <= 8,
    ensures
        r == pow256(n as nat),
        1 <= r <= 0x1_0000_0000_0000_0000,
{
    let mut power: u128 = 1;
    let mut done: usize = 0;
    while done < n
        invariant
            done <= n <= 8,
            power == pow256(done as nat),
        decreases n - done,
    {
        proof {
            lemma_pow256((done + 1) as nat);
        }
        power = power * 256;
        done = done + 1;
    }
    proof {
        lemma_pow256(n as nat);
    }
    power
}

/// Nanoseconds from a CUC's two fields.
fn cuc_nanos(coarse: u64, fine: u64, fine_bytes: usize) -> (r: i128)
    requires
        fine_bytes <= 8,
    ensures
        r == cuc_nanos_of(coarse as nat, fine as nat, fine_bytes as nat),
        0 <= r <= 0x1_0000_0000_0000_0000_0000_0000_0000,
{
    let whole: i128 = coarse as i128 * 1_000_000_000;
    let scaled: u128 = fine as u128 * 1_000_000_000;
    let unit: u128 = power_of_256(fine_bytes);
    let fraction: u128 = scaled / unit;
    proof {
        lemma_div_is_ordered_by_denominator(scaled as int, 1, unit as int);
    }
    whole + fraction as i128
}

/// Decodes a CUC field laid out as bytes.
///
/// A `bytes` longer than the field is read from its front and the rest ignored.
///
/// `None` when the field is too short, too wide, or the resulting instant is outside the range
/// [`Utc`] can name.
pub fn cuc_from_bytes(bytes: &[u8], coarse_bytes: u8, fine_bytes: u8, epoch: Utc) -> (r: Option<
    Utc,
>)
    ensures
        r == cuc_time(bytes@, coarse_bytes, fine_bytes, epoch),
{
    let coarse_len: usize = coarse_bytes as usize;
    let fine_len: usize = fine_bytes as usize;
    if coarse_len == 0 || coarse_len + fine_len > MAX_TIME_BYTES {
        return None;
    }
    if bytes.len() < coarse_len + fine_len {
        return None;
    }
    let coarse: u64 = be_unsigned(&bytes[0..coarse_len]);
    let fine: u64 = be_unsigned(&bytes[coarse_len..coarse_len + fine_len]);
    instant(epoch, cuc_nanos(coarse, fine, fine_len))
}

/// Decodes a CUC field that arrived as a single unsigned integer.
///
/// `None` when the two widths do not fit in the integer, or the instant is out of range.
pub fn cuc_from_unsigned(value: u64, coarse_bytes: u8, fine_bytes: u8, epoch: Utc) -> (r: Option<
    Utc,
>)
    ensures
        r == cuc_integer_time(value as nat, coarse_bytes, fine_bytes, epoch),
{
    let coarse_len: usize = coarse_bytes as usize;
    let fine_len: usize = fine_bytes as usize;
    if coarse_len == 0 || coarse_len + fine_len > MAX_TIME_BYTES {
        return None;
    }
    let unit: u128 = power_of_256(fine_len);
    proof {
        lemma_pow256(fine_len as nat);
    }
    let coarse: u64 = value / (unit as u64);
    let fine: u64 = value % (unit as u64);
    instant(epoch, cuc_nanos(coarse, fine, fine_len))
}

/// Nanoseconds from a CDS submillisecond field.
///
/// Two octets are microseconds within the millisecond and four are picoseconds; the width
/// decides and nothing else does.
fn cds_submillisecond_nanos(field: &[u8]) -> (r: Option<u64>)
    ensures
        r is Some <==> submillisecond_of(field@) is Some,
        r matches Some(nanos) ==> submillisecond_of(field@) == Some(nanos as nat) && nanos
            <= 0x1000_0000_0000,
{
    if field.len() == 0 {
        Some(0)
    } else if field.len() == 2 {
        Some(be_unsigned(field) * 1_000)
    } else if field.len() == 4 {
        Some(be_unsigned(field) / 1_000)
    } else {
        None
    }
}

/// Decodes a CDS field.
///
/// Milliseconds of day are refused at or above 86 401 000: a day plus the leap second this
/// clock does not model.
///
/// `None` when the field is too short, the submillisecond width is not one CCSDS allows, or
/// the instant is out of range.
pub fn cds_from_bytes(
    bytes: &[u8],
    day_bytes: u8,
    submillisecond_bytes: u8,
    epoch: Utc,
) -> (r: Option<Utc>)
    ensures
        r == cds_time(bytes@, day_bytes, submillisecond_bytes, epoch),
{
    let day_len: usize = day_bytes as usize;
    let below_len: usize = submillisecond_bytes as usize;
    if day_len == 0 || day_len > MAX_TIME_BYTES {
        return None;
    }
    let width: usize = day_len + CDS_MILLISECONDS_BYTES + below_len;
    if bytes.len() < width {
        return None;
    }
    let days: u64 = be_unsigned(&bytes[0..day_len]);
    let milliseconds: u64 = be_unsigned(&bytes[day_len..day_len + CDS_MILLISECONDS_BYTES]);
    if milliseconds >= MAX_MILLISECONDS_OF_DAY {
        return None;
    }
    match cds_submillisecond_nanos(&bytes[day_len + CDS_MILLISECONDS_BYTES..width]) {
        None => None,
        Some(below) => {
            let nanos: i128 = days as i128 * 86_400_000_000_000 + milliseconds as i128 * 1_000_000
                + below as i128;
            instant(epoch, nanos)
        },
    }
}

/// Converts a count of seconds since `epoch`.
///
/// `None` for a value that is not a finite number of nanoseconds away from the epoch, and for
/// an instant that is out of range.
pub fn seconds_from_f64(seconds: Float64, epoch: Utc) -> (r: Option<Utc>)
    ensures
        r == seconds_time(seconds, epoch),
{
    match seconds.to_nanos() {
        Some(nanos) => instant(epoch, nanos as i128),
        None => None,
    }
}

/// The low `count` octets of an integer, most significant first.
fn low_octets(value: u64, count: usize) -> (r: Vec<u8>)
    ensures
        r@ == octets_of(value as nat, count as nat),
    decreases count,
{
    if count == 0 {
        return Vec::new();
    }
    let mut octets: Vec<u8> = low_octets(value / 256, count - 1);
    octets.push((value % 256) as u8);
    octets
}

/// Reads one decoded parameter as an instant.
///
/// [`TimeFormat::Cuc`] and [`TimeFormat::Cds`] read the raw value, as bytes or as the single
/// unsigned integer a parameter of the right width decodes to; [`TimeFormat::Seconds`] reads
/// the engineering value.
pub fn from_values(format: TimeFormat, raw: &RawValue, eng: &EngValue) -> (r: Option<Utc>)
    ensures
        r == value_time(format, raw@, eng@),
{
    match format {
        TimeFormat::Cuc { coarse_bytes, fine_bytes, epoch } => match raw {
            RawValue::Bytes(bytes) => cuc_from_bytes(
                bytes.as_slice(),
                coarse_bytes,
                fine_bytes,
                epoch,
            ),
            RawValue::Unsigned(value) => cuc_from_unsigned(*value, coarse_bytes, fine_bytes, epoch),
            RawValue::Signed(_) | RawValue::Float(_) => None,
        },
        TimeFormat::Cds { day_bytes, submillisecond_bytes, epoch } => match raw {
            RawValue::Bytes(bytes) => cds_from_bytes(
                bytes.as_slice(),
                day_bytes,
                submillisecond_bytes,
                epoch,
            ),
            RawValue::Unsigned(value) => {
                let width: usize = day_bytes as usize + CDS_MILLISECONDS_BYTES
                    + submillisecond_bytes as usize;
                if width > MAX_TIME_BYTES {
                    return None;
                }
                let octets = low_octets(*value, width);
                cds_from_bytes(octets.as_slice(), day_bytes, submillisecond_bytes, epoch)
            },
            RawValue::Signed(_) | RawValue::Float(_) => None,
        },
        TimeFormat::Seconds { epoch } => match Value::from_eng(eng).as_f64() {
            Some(seconds) => seconds_from_f64(seconds, epoch),
            None => None,
        },
    }
}

/// A resolved spacecraft clock: which parameter, and how to read it.
#[derive(Clone, Copy, PartialEq, Eq, Debug, Structural)]
pub struct SpacecraftClock {
    parameter: ParamId,
    format: TimeFormat,
}

/// Why a clock parameter that the definition does not declare is refused.
pub open spec fn undeclared_clock(name: Seq<char>) -> Seq<char> {
    "spacecraft_time.parameter: the definition declares no parameter named `"@ + name + "`"@
}

impl SpacecraftClock {
    /// Which parameter carries the time.
    pub closed spec fn source(self) -> ParamId {
        self.parameter
    }

    /// The layout its bits are in.
    pub closed spec fn layout(self) -> TimeFormat {
        self.format
    }

    /// Resolves the configured parameter, given what the definition's lookup of its name found.
    ///
    /// A miss is a refused session and not a fall back to ground receipt.
    pub fn resolve(found: Option<ParamId>, source: &TimeSource) -> (r: Result<Self, EngineError>)
        ensures
            match found {
                Some(parameter) => r matches Ok(clock) && clock.source() == parameter
                    && clock.layout() == source.format,
                None => r matches Err(error) && error@ == EngineErrorView::Config(
                    undeclared_clock(source.parameter@),
                ),
            },
    {
        match found {
            Some(parameter) => Ok(Self::new(parameter, source.format)),
            None => {
                let mut message: String =
                    "spacecraft_time.parameter: the definition declares no parameter named `".to_owned();
                message.append(source.parameter.as_str());
                message.append("`");
                Err(EngineError::config(message))
            },
        }
    }

    /// Builds a clock for an already-resolved parameter.
    pub fn new(parameter: ParamId, format: TimeFormat) -> (r: Self)
        ensures
            r.source() == parameter,
            r.layout() == format,
    {
        SpacecraftClock { parameter, format }
    }

    /// Which parameter carries the time.
    pub fn parameter(self) -> (r: ParamId)
        ensures
            r == self.source(),
    {
        self.parameter
    }

    /// The layout its bits are in.
    pub fn format(self) -> (r: TimeFormat)
        ensures
            r == self.layout(),
    {
        self.format
    }

    /// The instant a decoded packet claims, if it carried the clock parameter.
    pub open spec fn reading(self, packet: &DecodedPacket) -> Option<Utc> {
        match packet.clock_views(self.source()) {
            Some(values) => value_time(self.layout(), values.0@, values.1@),
            None => None,
        }
    }

    /// The instant a decoded packet claims, if it carried the clock parameter.
    ///
    /// `None` means the packet does not contain that parameter, or that its value is not in the
    /// configured layout.
    pub fn read(self, packet: &DecodedPacket) -> (r: Option<Utc>)
        ensures
            r == self.reading(packet),
    {
        match packet.clock {
            Some(index) => if index < packet.values.len() && packet.values[index].parameter
                == self.parameter {
                from_values(self.format, &packet.values[index].raw, &packet.values[index].eng)
            } else {
                None
            },
            None => None,
        }
    }
}

/// A packet that does not carry the clock parameter claims no instant, and what one claims is read
/// from a value of that parameter.
pub proof fn only_the_clock_is_read(clock: SpacecraftClock, packet: &DecodedPacket)
    ensures
        match clock.reading(packet) {
            Some(time) => exists|i: int|
                0 <= i < packet.values@.len() && (#[trigger] packet.values@[i]).parameter
                    == clock.source() && value_time(
                    clock.layout(),
                    packet.values@[i].raw@,
                    packet.values@[i].eng@,
                ) == Some(time),
            None => true,
        },
{
    if let Some(time) = clock.reading(packet) {
        let index = packet.clock->0 as int;
        assert(packet.values@[index].parameter == clock.source());
    }
}

/// A CUC reads the same as octets and as the one integer those octets spell.
pub proof fn cuc_octets_and_integer_agree(
    field: Seq<u8>,
    coarse_bytes: u8,
    fine_bytes: u8,
    epoch: Utc,
)
    requires
        field.len() == coarse_bytes + fine_bytes,
    ensures
        cuc_time(field, coarse_bytes, fine_bytes, epoch) == cuc_integer_time(
            big_endian(field),
            coarse_bytes,
            fine_bytes,
            epoch,
        ),
{
    let a = field.subrange(0, coarse_bytes as int);
    let b = field.subrange(coarse_bytes as int, coarse_bytes + fine_bytes);
    assert(field =~= a + b);
    lemma_big_endian_concat(a, b);
    lemma_big_endian_bound(b);
    lemma_fundamental_div_mod_converse(
        big_endian(field) as int,
        pow256(fine_bytes as nat) as int,
        big_endian(a) as int,
        big_endian(b) as int,
    );
}

/// A CDS reads the same as octets and as the one integer those octets spell.
pub proof fn cds_octets_and_integer_agree(
    field: Seq<u8>,
    day_bytes: u8,
    submillisecond_bytes: u8,
    epoch: Utc,
    eng: ValueView,
)
    requires
        field.len() == day_bytes + 4 + submillisecond_bytes,
        field.len() <= 8,
    ensures
        value_time(
            TimeFormat::Cds { day_bytes, submillisecond_bytes, epoch },
            ValueView::Bytes(field),
            eng,
        ) == value_time(
            TimeFormat::Cds { day_bytes, submillisecond_bytes, epoch },
            ValueView::Unsigned(big_endian(field) as u64),
            eng,
        ),
{
    lemma_big_endian_bound(field);
    lemma_pow256(field.len());
    lemma_octets_of_big_endian(field);
}

proof fn lemma_octets_of_big_endian(field: Seq<u8>)
    ensures
        octets_of(big_endian(field), field.len()) == field,
    decreases field.len(),
{
    if field.len() == 0 {
        assert(octets_of(big_endian(field), field.len()) =~= field);
    } else {
        lemma_octets_of_big_endian(field.drop_last());
        lemma_fundamental_div_mod_converse(
            big_endian(field) as int,
            256,
            big_endian(field.drop_last()) as int,
            field.last() as int,
        );
        assert(octets_of(big_endian(field), field.len()) =~= field);
    }
}

/// A field longer than its time code reads as its front alone.
pub proof fn what_follows_a_cuc_is_ignored(
    field: Seq<u8>,
    rest: Seq<u8>,
    coarse_bytes: u8,
    fine_bytes: u8,
    epoch: Utc,
)
    requires
        field.len() == coarse_bytes + fine_bytes,
    ensures
        cuc_time(field + rest, coarse_bytes, fine_bytes, epoch) == cuc_time(
            field,
            coarse_bytes,
            fine_bytes,
            epoch,
        ),
{
    let whole = field + rest;
    assert(whole.subrange(0, coarse_bytes as int) =~= field.subrange(0, coarse_bytes as int));
    assert(whole.subrange(coarse_bytes as int, coarse_bytes + fine_bytes) =~= field.subrange(
        coarse_bytes as int,
        coarse_bytes + fine_bytes,
    ));
}

/// A calibrator does not touch a CUC or CDS: the engineering value has no part in it. The raw
/// value has none in a count of seconds.
pub proof fn each_format_reads_one_value(
    format: TimeFormat,
    raw: ValueView,
    other_raw: ValueView,
    eng: ValueView,
    other_eng: ValueView,
)
    ensures
        format is Seconds ==> value_time(format, raw, eng) == value_time(format, other_raw, eng),
        !(format is Seconds) ==> value_time(format, raw, eng) == value_time(format, raw, other_eng),
{
}

} // verus!
