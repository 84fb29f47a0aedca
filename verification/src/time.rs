//! One clock type, in nanoseconds.
//!
//! A ground station needs two times per packet: when the ground received it, and when the
//! spacecraft says it was made. This type carries both: it is just an instant.

use vstd::arithmetic::div_mod::*;
use vstd::arithmetic::mul::*;
use vstd::prelude::*;
use vstd::string::*;

use crate::float::Float64;
use crate::ratio::seconds_of;
use crate::text::{decimal, push_padded, right_aligned};

verus! {

/// Nanoseconds since the Unix epoch, UTC.
///
/// Signed, so an epoch before 1970 is representable without a separate type.
#[derive(Clone, Copy, PartialEq, Eq, PartialOrd, Ord, Hash, Debug, Structural)]
pub struct Utc(pub i64);

/// Nanoseconds in one day.
pub const NANOS_PER_DAY: i64 = 86_400_000_000_000;

/// The first of January 1958, in nanoseconds from the Unix epoch.
pub const CCSDS_EPOCH_NANOS: i64 = -378_691_200_000_000_000;

/// The sixth of January 1980, in nanoseconds from the Unix epoch.
pub const GPS_EPOCH_NANOS: i64 = 315_964_800_000_000_000;

/// The nearest value an `i64` can hold.
pub open spec fn clamped(n: int) -> int {
    if n < i64::MIN {
        i64::MIN as int
    } else if n > i64::MAX {
        i64::MAX as int
    } else {
        n
    }
}

/// Whether February has 29 days in a proleptic Gregorian year.
pub open spec fn is_leap(year: int) -> bool {
    year % 4 == 0 && (year % 100 != 0 || year % 400 == 0)
}

/// How many days a year has.
pub open spec fn days_in_year(year: int) -> int {
    if is_leap(year) {
        366
    } else {
        365
    }
}

/// How many days a month has.
pub open spec fn days_in_month(year: int, month: int) -> int {
    if month == 2 {
        if is_leap(year) {
            29
        } else {
            28
        }
    } else if month == 4 || month == 6 || month == 9 || month == 11 {
        30
    } else {
        31
    }
}

/// Days from the first of January 1970 to the first of January of `year`.
pub open spec fn days_to_year(year: int) -> int
    decreases
            (if year >= 1970 {
                year - 1970
            } else {
                1970 - year
            }),
{
    if year == 1970 {
        0
    } else if year > 1970 {
        days_to_year(year - 1) + days_in_year(year - 1)
    } else {
        days_to_year(year + 1) - days_in_year(year)
    }
}

/// Days from the first of January to the first of `month`.
pub open spec fn days_to_month(year: int, month: int) -> int
    decreases month,
{
    if month <= 1 {
        0
    } else {
        days_to_month(year, month - 1) + days_in_month(year, month - 1)
    }
}

/// Whether a year, a month and a day name a date.
pub open spec fn is_date(year: int, month: int, day: int) -> bool {
    1 <= month <= 12 && 1 <= day <= days_in_month(year, month)
}

/// Days from the first of January 1970 to a date.
pub open spec fn day_number(year: int, month: int, day: int) -> int {
    days_to_year(year) + days_to_month(year, month) + day - 1
}

/// The date that is `days` after the first of January 1970: year, month, day.
pub open spec fn date_of(days: int) -> (int, int, int) {
    choose|t: (int, int, int)| #[trigger]
        is_date(t.0, t.1, t.2) && day_number(t.0, t.1, t.2) == days
}

/// The time of day of an instant: hour, minute, second, nanosecond.
pub open spec fn time_of_day(nanos: int) -> (int, int, int, int) {
    let secs = (nanos % 86_400_000_000_000) / 1_000_000_000;
    (
        secs / 3600,
        (secs / 60) % 60,
        secs % 60,
        (nanos % 86_400_000_000_000) % 1_000_000_000,
    )
}

/// `n` in decimal with zeros in front up to `width` digits.
pub open spec fn padded(n: int, width: nat) -> Seq<char> {
    right_aligned(decimal(n as nat), '0', width)
}

/// ISO-8601 with millisecond resolution: `2026-09-12T14:03:07.412Z`.
pub open spec fn iso_text(nanos: int) -> Seq<char> {
    let date = date_of(nanos / 86_400_000_000_000);
    let time = time_of_day(nanos);
    padded(date.0, 4) + "-"@ + padded(date.1, 2) + "-"@ + padded(date.2, 2) + "T"@ + padded(
        time.0,
        2,
    ) + ":"@ + padded(time.1, 2) + ":"@ + padded(time.2, 2) + "."@ + padded(
        time.3 / 1_000_000,
        3,
    ) + "Z"@
}

/// The instant a wall clock reads: so many nanoseconds after the Unix epoch, or before it,
/// stopping at the ends of the range.
pub open spec fn clock_instant(reading: Result<u128, u128>) -> int {
    match reading {
        Ok(after) => clamped(after as int),
        Err(before) => if before <= i64::MAX {
            -before
        } else {
            i64::MIN as int
        },
    }
}

/// Reads the wall clock with `SystemTime::now` and hands the distance from the Unix epoch on in
/// nanoseconds: `Ok` after it, `Err` before it. Nothing is claimed of the reading.
#[verifier::external_body]
fn wall_clock() -> (r: Result<u128, u128>)
{
    match std::time::SystemTime::now().duration_since(std::time::UNIX_EPOCH) {
        Ok(since) => Ok(since.as_nanos()),
        Err(before) => Err(before.duration().as_nanos()),
    }
}

spec fn leap_days_before(year: int) -> int {
    (year + 3) / 4 - (year + 99) / 100 + (year + 399) / 400
}

proof fn lemma_multiple_passed(year: int, d: int)
    requires
        d > 1,
    ensures
        (year + d) / d - (year + d - 1) / d == (if year % d == 0 {
            1int
        } else {
            0
        }),
{
    let q = year / d;
    let r = year % d;
    lemma_fundamental_div_mod(year, d);
    lemma_mul_is_commutative(d, q);
    lemma_hoist_over_denominator(r + d, q, d as nat);
    lemma_hoist_over_denominator(r + d - 1, q, d as nat);
    lemma_fundamental_div_mod_converse(r + d, d, 1, r);
    if r == 0 {
        lemma_fundamental_div_mod_converse(r + d - 1, d, 0, d - 1);
    } else {
        lemma_fundamental_div_mod_converse(r + d - 1, d, 1, r - 1);
    }
}

proof fn lemma_leap_days(year: int)
    ensures
        leap_days_before(year + 1) == leap_days_before(year) + (if is_leap(year) {
            1int
        } else {
            0
        }),
{
    lemma_multiple_passed(year, 4);
    lemma_multiple_passed(year, 100);
    lemma_multiple_passed(year, 400);
    if year % 100 == 0 {
        lemma_fundamental_div_mod(year, 100);
        lemma_mod_multiples_basic(25 * (year / 100), 4);
    }
    if year % 400 == 0 {
        lemma_fundamental_div_mod(year, 400);
        lemma_mod_multiples_basic(4 * (year / 400), 100);
    }
}

proof fn lemma_days_to_year(year: int)
    ensures
        days_to_year(year) == 365 * year + leap_days_before(year) - 719_528,
    decreases
            (if year >= 1970 {
                year - 1970
            } else {
                1970 - year
            }),
{
    if year > 1970 {
        lemma_days_to_year(year - 1);
        lemma_leap_days(year - 1);
    } else if year < 1970 {
        lemma_days_to_year(year + 1);
        lemma_leap_days(year);
    }
}

proof fn lemma_days_to_month(year: int)
    ensures
        days_to_month(year, 1) == 0,
        days_to_month(year, 2) == 31,
        days_to_month(year, 3) == 31 + days_in_month(year, 2),
        days_to_month(year, 4) == days_to_month(year, 3) + 31,
        days_to_month(year, 5) == days_to_month(year, 3) + 61,
        days_to_month(year, 6) == days_to_month(year, 3) + 92,
        days_to_month(year, 7) == days_to_month(year, 3) + 122,
        days_to_month(year, 8) == days_to_month(year, 3) + 153,
        days_to_month(year, 9) == days_to_month(year, 3) + 184,
        days_to_month(year, 10) == days_to_month(year, 3) + 214,
        days_to_month(year, 11) == days_to_month(year, 3) + 245,
        days_to_month(year, 12) == days_to_month(year, 3) + 275,
{
    reveal_with_fuel(days_to_month, 13);
}

/// Every month of a year ends before the next one starts, and the last ends with the year.
proof fn lemma_day_of_year(year: int, month: int, day: int)
    requires
        is_date(year, month, day),
    ensures
        0 <= days_to_month(year, month),
        days_to_month(year, month) + day <= days_in_year(year),
{
    lemma_days_to_month(year);
}

proof fn lemma_years_ordered(a: int, b: int)
    requires
        a < b,
    ensures
        days_to_year(a) + days_in_year(a) <= days_to_year(b),
    decreases b - a,
{
    lemma_days_to_year(a);
    lemma_days_to_year(a + 1);
    assert(days_to_year(a + 1) == days_to_year(a) + days_in_year(a));
    if a + 1 < b {
        lemma_years_ordered(a + 1, b);
    }
}

proof fn lemma_months_ordered(year: int, a: int, b: int)
    requires
        1 <= a < b <= 12,
    ensures
        days_to_month(year, a) + days_in_month(year, a) <= days_to_month(year, b),
    decreases b - a,
{
    if a + 1 < b {
        lemma_months_ordered(year, a, b - 1);
    }
}

/// No two dates have the same number: a day count names one date.
pub proof fn dates_are_distinct(a: (int, int, int), b: (int, int, int))
    requires
        is_date(a.0, a.1, a.2),
        is_date(b.0, b.1, b.2),
        day_number(a.0, a.1, a.2) == day_number(b.0, b.1, b.2),
    ensures
        a == b,
{
    lemma_day_of_year(a.0, a.1, a.2);
    lemma_day_of_year(b.0, b.1, b.2);
    if a.0 < b.0 {
        lemma_years_ordered(a.0, b.0);
    } else if b.0 < a.0 {
        lemma_years_ordered(b.0, a.0);
    } else if a.1 < b.1 {
        lemma_months_ordered(a.0, a.1, b.1);
    } else if b.1 < a.1 {
        lemma_months_ordered(a.0, b.1, a.1);
    }
}

/// The day after a date has the next number: the next day of the month, or the first of the
/// next month, or the first of January.
pub proof fn days_are_consecutive(year: int, month: int, day: int)
    requires
        is_date(year, month, day),
    ensures
        day < days_in_month(year, month) ==> day_number(year, month, day + 1) == day_number(
            year,
            month,
            day,
        ) + 1,
        day == days_in_month(year, month) && month < 12 ==> day_number(year, month + 1, 1)
            == day_number(year, month, day) + 1,
        day == 31 && month == 12 ==> day_number(year + 1, 1, 1) == day_number(year, month, day)
            + 1,
{
    lemma_days_to_month(year);
    lemma_days_to_month(year + 1);
    lemma_days_to_year(year);
    lemma_days_to_year(year + 1);
}

/// Within a 400-year cycle that starts on the first of March: which year of the cycle a day
/// falls in, and which day of that year it is.
proof fn lemma_year_of_cycle(doe: int, yoe: int)
    requires
        0 <= doe < 146_097,
        yoe == (doe - doe / 1460 + doe / 36_524 - doe / 146_096) / 365,
    ensures
        0 <= yoe < 400,
        0 <= doe - (365 * yoe + yoe / 4 - yoe / 100) <= 365,
        doe - (365 * yoe + yoe / 4 - yoe / 100) == 365 ==> is_leap(yoe + 1),
{
    if doe < 146_096 {
        let century = doe / 36_524;
        let r = doe % 36_524;
        let k = r / 1461;
        let t = r % 1461;
        assert(0 <= century <= 3);
        assert(0 <= k <= 24);
        assert(k == 24 ==> t < 1460);
        let e: int = if 24 * century + k + t >= 1460 {
            1
        } else {
            0
        };
        assert(doe == 36_524 * century + 1461 * k + t);
        assert(doe / 1460 == 25 * century + k + e);
        assert(doe - doe / 1460 + doe / 36_524 == 365 * (100 * century + 4 * k) + t - e);
        let q = (t - e) / 365;
        assert(0 <= q <= 3);
        assert(yoe == 100 * century + 4 * k + q);
        assert(yoe / 4 == 25 * century + k);
        assert(yoe / 100 == century);
        if doe - (365 * yoe + yoe / 4 - yoe / 100) == 365 {
            assert(q == 3);
        }
    }
}

proof fn lemma_cycle(era: int, yoe: int)
    requires
        0 <= yoe < 400,
    ensures
        (400 * era + yoe) / 4 == 100 * era + yoe / 4,
        (400 * era + yoe) / 100 == 4 * era + yoe / 100,
        (400 * era + yoe) / 400 == era,
        is_leap(400 * era + yoe + 1) == is_leap(yoe + 1),
{
    lemma_hoist_over_denominator(yoe, 100 * era, 4);
    lemma_hoist_over_denominator(yoe, 4 * era, 100);
    lemma_hoist_over_denominator(yoe, era, 400);
    lemma_mod_multiples_vanish(100 * era, yoe + 1, 4);
    lemma_mod_multiples_vanish(4 * era, yoe + 1, 100);
    lemma_mod_multiples_vanish(era, yoe + 1, 400);
}

/// The number of the first of March.
proof fn lemma_first_of_march(year: int)
    ensures
        day_number(year, 3, 1) == 365 * year + year / 4 - year / 100 + year / 400 - 719_468,
        day_number(year + 1, 1, 1) == day_number(year, 3, 1) + 306,
        day_number(year + 1, 3, 1) == day_number(year, 3, 1) + (if is_leap(year + 1) {
            366int
        } else {
            365
        }),
{
    lemma_days_to_year(year);
    lemma_days_to_year(year + 1);
    lemma_leap_days(year);
    lemma_days_to_month(year);
    lemma_days_to_month(year + 1);
    assert((year + 4) / 4 == year / 4 + 1);
    assert((year + 100) / 100 == year / 100 + 1);
    assert((year + 400) / 400 == year / 400 + 1);
}

/// The date that is `doy` days after the first of March.
proof fn lemma_day_of_march_year(march_year: int, doy: int, mp: int)
    requires
        0 <= doy <= 365,
        doy == 365 ==> is_leap(march_year + 1),
        mp == (5 * doy + 2) / 153,
    ensures
        0 <= mp <= 11,
        0 <= doy - (153 * mp + 2) / 5,
        ({
            let month = if mp < 10 {
                mp + 3
            } else {
                mp - 9
            };
            let year = if mp < 10 {
                march_year
            } else {
                march_year + 1
            };
            let day = doy - (153 * mp + 2) / 5 + 1;
            is_date(year, month, day) && day_number(year, month, day) == day_number(
                march_year,
                3,
                1,
            ) + doy
        }),
{
    lemma_first_of_march(march_year);
    lemma_days_to_month(march_year);
    lemma_days_to_month(march_year + 1);
}

/// Days since the first of January 1970 to a proleptic Gregorian date.
///
/// The era starts in March, so that the leap day is the last day of the year and the month
/// lengths fall into a repeating pattern.
fn civil_from_days(days: i64) -> (r: (i32, u32, u32))
    requires
        -700_000_000_000 <= days <= 700_000_000_000,
    ensures
        is_date(r.0 as int, r.1 as int, r.2 as int),
        day_number(r.0 as int, r.1 as int, r.2 as int) == days,
{
    let z: i64 = days + 719_468;
    let shifted: i64 = if z >= 0 {
        z
    } else {
        z - 146_096
    };
    let era: i64 = shifted / 146_097;
    assert(era == z as int / 146_097);
    let doe: i64 = z - era * 146_097;
    assert(0 <= doe < 146_097);
    let yoe: i64 = (doe - doe / 1460 + doe / 36_524 - doe / 146_096) / 365;
    proof {
        lemma_year_of_cycle(doe as int, yoe as int);
    }
    let march_year: i64 = yoe + era * 400;
    let doy: i64 = doe - (365 * yoe + yoe / 4 - yoe / 100);
    let mp: i64 = (5 * doy + 2) / 153;
    let day: i64 = doy - (153 * mp + 2) / 5 + 1;
    let month: i64 = if mp < 10 {
        mp + 3
    } else {
        mp - 9
    };
    let year: i64 = if month <= 2 {
        march_year + 1
    } else {
        march_year
    };
    proof {
        lemma_cycle(era as int, yoe as int);
        lemma_first_of_march(march_year as int);
        lemma_day_of_march_year(march_year as int, doy as int, mp as int);
    }
    (year as i32, month as u32, day as u32)
}

/// A number of whole seconds of a day is an hour, a minute and a second.
proof fn lemma_time_of_day(secs: int)
    requires
        0 <= secs < 86_400,
    ensures
        0 <= secs / 3600 < 24,
        0 <= (secs / 60) % 60 < 60,
        0 <= secs % 60 < 60,
        secs == ((secs / 3600) * 60 + (secs / 60) % 60) * 60 + secs % 60,
{
    assert(secs / 3600 == (secs / 60) / 60);
}

/// A day number of the range of `Utc` lies in one of the years 1677 to 2262.
proof fn lemma_year_range(year: int, month: int, day: int)
    requires
        is_date(year, month, day),
        -106_752 <= day_number(year, month, day) <= 106_751,
    ensures
        1677 <= year <= 2262,
{
    lemma_day_of_year(year, month, day);
    lemma_days_to_year(1677);
    lemma_days_to_year(2263);
    if year < 1677 {
        lemma_years_ordered(year, 1677);
    }
    if year > 2262 {
        if year > 2263 {
            lemma_years_ordered(2263, year);
        }
    }
}

impl Default for Utc {
    /// The Unix epoch.
    fn default() -> (r: Self)
        ensures
            r.nanos() == 0,
    {
        Utc(0)
    }
}

impl Utc {
    /// The Unix epoch itself.
    pub fn epoch() -> (r: Self)
        ensures
            r.nanos() == 0,
            date_of(r.nanos() / 86_400_000_000_000) == (1970int, 1int, 1int),
    {
        proof {
            let date = (1970int, 1int, 1int);
            assert(is_date(date.0, date.1, date.2));
            dates_are_distinct(date, date_of(0));
        }
        Utc(0)
    }

    /// The CCSDS epoch, 1958-01-01T00:00:00, as a Unix time.
    pub fn ccsds_epoch() -> (r: Self)
        ensures
            r.nanos() == -378_691_200_000_000_000,
            date_of(r.nanos() / 86_400_000_000_000) == (1958int, 1int, 1int),
            r.nanos() % 86_400_000_000_000 == 0,
    {
        proof {
            let date = (1958int, 1int, 1int);
            assert(is_date(date.0, date.1, date.2));
            lemma_days_to_year(1958);
            dates_are_distinct(date, date_of(-4383));
        }
        Utc(CCSDS_EPOCH_NANOS)
    }

    /// The GPS epoch, 1980-01-06T00:00:00.
    pub fn gps_epoch() -> (r: Self)
        ensures
            r.nanos() == 315_964_800_000_000_000,
            date_of(r.nanos() / 86_400_000_000_000) == (1980int, 1int, 6int),
            r.nanos() % 86_400_000_000_000 == 0,
    {
        proof {
            let date = (1980int, 1int, 6int);
            assert(is_date(date.0, date.1, date.2));
            lemma_days_to_year(1980);
            dates_are_distinct(date, date_of(3657));
        }
        Utc(GPS_EPOCH_NANOS)
    }

    /// Nanoseconds since the Unix epoch, as a number.
    pub open spec fn nanos(self) -> int {
        self.0 as int
    }

    /// Wraps a count of nanoseconds since the Unix epoch.
    pub fn from_unix_nanos(nanos: i64) -> (r: Self)
        ensures
            r.nanos() == nanos,
    {
        Utc(nanos)
    }

    /// Wraps a count of seconds since the Unix epoch, stopping at the ends of the range.
    pub fn from_unix_secs(secs: i64) -> (r: Self)
        ensures
            r.nanos() == clamped(secs * 1_000_000_000),
    {
        if secs > 9_223_372_036 {
            Utc(i64::MAX)
        } else if secs < -9_223_372_036 {
            Utc(i64::MIN)
        } else {
            Utc(secs * 1_000_000_000)
        }
    }

    /// Nanoseconds since the Unix epoch.
    pub fn unix_nanos(self) -> (r: i64)
        ensures
            r == self.nanos(),
    {
        self.0
    }

    /// This instant moved by a signed number of nanoseconds, saturating at the ends.
    pub fn offset_nanos(self, nanos: i64) -> (r: Self)
        ensures
            r.nanos() == clamped(self.nanos() + nanos),
    {
        match self.0.checked_add(nanos) {
            Some(sum) => Utc(sum),
            None => if nanos < 0 {
                Utc(i64::MIN)
            } else {
                Utc(i64::MAX)
            },
        }
    }

    /// Nanoseconds from `earlier` to this instant; negative if `earlier` is later, and
    /// saturating at the ends.
    pub fn since(self, earlier: Self) -> (r: i64)
        ensures
            r == clamped(self.nanos() - earlier.nanos()),
    {
        match self.0.checked_sub(earlier.0) {
            Some(difference) => difference,
            None => if earlier.0 > 0 {
                i64::MIN
            } else {
                i64::MAX
            },
        }
    }

    /// Seconds since the Unix epoch as a double, for a plot axis.
    pub fn unix_secs_f64(self) -> (r: Float64)
        ensures
            r == seconds_of(self.nanos()),
            !r.nan(),
    {
        Float64::from_nanos(self.0)
    }

    /// Seconds from `earlier` to this instant.
    pub fn secs_since(self, earlier: Self) -> (r: Float64)
        ensures
            r == seconds_of(clamped(self.nanos() - earlier.nanos())),
            !r.nan(),
    {
        Float64::from_nanos(self.since(earlier))
    }

    /// Calendar breakdown: year, month, day, hour, minute, second, nanosecond.
    ///
    /// Proleptic Gregorian, no leap seconds: every day has 86 400 seconds, counted from the
    /// midnight at or before the instant.
    pub fn civil(self) -> (r: (i32, u32, u32, u32, u32, u32, u32))
        ensures
            is_date(r.0 as int, r.1 as int, r.2 as int),
            r.3 < 24,
            r.4 < 60,
            r.5 < 60,
            r.6 < 1_000_000_000,
            self.nanos() == day_number(r.0 as int, r.1 as int, r.2 as int) * 86_400_000_000_000
                + ((r.3 * 60 + r.4) * 60 + r.5) * 1_000_000_000 + r.6,
            1677 <= r.0 <= 2262,
            (r.0 as int, r.1 as int, r.2 as int) == date_of(self.nanos() / 86_400_000_000_000),
            (r.3 as int, r.4 as int, r.5 as int, r.6 as int) == time_of_day(self.nanos()),
    {
        let nanos: i64 = self.0;
        let quotient: i64 = nanos / NANOS_PER_DAY;
        let remainder: i64 = nanos % NANOS_PER_DAY;
        let days: i64 = if remainder < 0 {
            quotient - 1
        } else {
            quotient
        };
        let rem_nanos: i64 = if remainder < 0 {
            remainder + NANOS_PER_DAY
        } else {
            remainder
        };
        assert(nanos == days * 86_400_000_000_000 + rem_nanos);
        assert(-106_752 <= days <= 106_751);
        let (year, month, day) = civil_from_days(days);
        let secs_of_day: i64 = rem_nanos / 1_000_000_000;
        let nano: i64 = rem_nanos % 1_000_000_000;
        proof {
            lemma_fundamental_div_mod_converse(
                nanos as int,
                86_400_000_000_000,
                days as int,
                rem_nanos as int,
            );
            lemma_year_range(year as int, month as int, day as int);
            lemma_time_of_day(secs_of_day as int);
            let found = (year as int, month as int, day as int);
            assert(is_date(found.0, found.1, found.2));
            dates_are_distinct(found, date_of(days as int));
        }
        (
            year,
            month,
            day,
            (secs_of_day / 3600) as u32,
            ((secs_of_day / 60) % 60) as u32,
            (secs_of_day % 60) as u32,
            nano as u32,
        )
    }

    /// The instant of a reading of the wall clock.
    ///
    /// A clock set before 1970 gives a negative instant rather than an error.
    pub fn from_clock(reading: Result<u128, u128>) -> (r: Self)
        ensures
            r.nanos() == clock_instant(reading),
    {
        match reading {
            Ok(after) => if after <= 0x7fff_ffff_ffff_ffff {
                Utc(after as i64)
            } else {
                Utc(i64::MAX)
            },
            Err(before) => if before <= 0x7fff_ffff_ffff_ffff {
                Utc(-(before as i64))
            } else {
                Utc(i64::MIN)
            },
        }
    }

    /// The current wall-clock time: the instant that some reading of the clock is. Which reading it
    /// was is up to the machine, and there is one for every instant.
    pub fn now() -> (r: Self)
        ensures
            exists|reading: Result<u128, u128>| r.nanos() == #[trigger] clock_instant(reading),
    {
        Self::from_clock(wall_clock())
    }

    /// The instant as ISO-8601 with millisecond resolution.
    pub fn to_string(self) -> (r: String)
        ensures
            r@ == iso_text(self.nanos()),
    {
        let (year, month, day, hour, min, sec, nano) = self.civil();
        let mut out: String = String::new();
        push_padded(&mut out, year as u64, 4);
        assert(out@ =~= padded(year as int, 4));
        out.append("-");
        push_padded(&mut out, month as u64, 2);
        out.append("-");
        push_padded(&mut out, day as u64, 2);
        out.append("T");
        push_padded(&mut out, hour as u64, 2);
        out.append(":");
        push_padded(&mut out, min as u64, 2);
        out.append(":");
        push_padded(&mut out, sec as u64, 2);
        out.append(".");
        push_padded(&mut out, (nano / 1_000_000) as u64, 3);
        out.append("Z");
        out
    }
}

} // verus!
