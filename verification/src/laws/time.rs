//! What instants promise: the calendar, and the texts that name them.

use vstd::arithmetic::div_mod::*;
use vstd::prelude::*;

use crate::laws::text::{a_number_reads_back, number_read};
use crate::text::decimal;
use crate::time::{
    clamped, clock_instant, date_of, dates_are_distinct, day_number, days_are_consecutive,
    days_in_month, days_in_year, days_to_year, is_date, is_leap, iso_text, padded, time_of_day,
};

verus! {

/// A leap year comes every four years, but not at a century, but at every fourth one; it has one
/// day more than another, and has it in February. Every month has the days it has.
pub proof fn the_calendar(year: int, month: int)
    ensures
        is_leap(4 * year) <==> year % 25 != 0 || year % 100 == 0,
        !is_leap(4 * year + 1),
        !is_leap(4 * year + 2),
        !is_leap(4 * year + 3),
        days_in_year(year) == 365 + (if is_leap(year) {
            1int
        } else {
            0
        }),
        days_in_month(year, 2) == 28 + (if is_leap(year) {
            1int
        } else {
            0
        }),
        month == 4 || month == 6 || month == 9 || month == 11 ==> days_in_month(year, month) == 30,
        month == 1 || month == 3 || month == 5 || month == 7 || month == 8 || month == 10 || month
            == 12 ==> days_in_month(year, month) == 31,
        day_number(1970, 1, 1) == 0,
{
}

/// A year later is as many days later as the year has, before the epoch and behind it.
pub proof fn years_follow_each_other(year: int)
    ensures
        days_to_year(year + 1) == days_to_year(year) + days_in_year(year),
{
}

/// What does not fit is at the nearer end of the range.
pub proof fn instants_stop_at_the_ends(n: int)
    ensures
        i64::MIN <= n <= i64::MAX ==> clamped(n) == n,
        n > i64::MAX ==> clamped(n) == i64::MAX,
        n < i64::MIN ==> clamped(n) == i64::MIN,
{
}

/// A clock that reads so long after the epoch is that long behind it, and one that reads before it
/// as long ahead of it, for as long as that can be named.
pub proof fn a_clock_reads_both_ways(reading: u128)
    ensures
        reading <= i64::MAX ==> clock_instant(Ok(reading)) == reading && clock_instant(Err(reading))
            == -reading,
        reading > i64::MAX ==> clock_instant(Ok(reading)) == i64::MAX && clock_instant(Err(reading))
            == i64::MIN,
{
}

/// The time of day of an instant puts the instant together again with the midnight before it.
pub proof fn a_day_is_hours_minutes_and_seconds(nanos: int)
    ensures
        ({
            let (hour, minute, second, nano) = time_of_day(nanos);
            &&& 0 <= hour < 24
            &&& 0 <= minute < 60
            &&& 0 <= second < 60
            &&& 0 <= nano < 1_000_000_000
            &&& nanos == (nanos / 86_400_000_000_000) * 86_400_000_000_000 + ((hour * 60 + minute)
                * 60 + second) * 1_000_000_000 + nano
        }),
{
    let rest = nanos % 86_400_000_000_000;
    let secs = rest / 1_000_000_000;
    lemma_fundamental_div_mod(nanos, 86_400_000_000_000);
    lemma_fundamental_div_mod(rest, 1_000_000_000);
    lemma_fundamental_div_mod(secs, 60);
    lemma_fundamental_div_mod(secs / 60, 60);
    lemma_div_denominator(secs, 60, 60);
}

proof fn lemma_date_exists(days: int) -> (date: (int, int, int))
    ensures
        is_date(date.0, date.1, date.2),
        day_number(date.0, date.1, date.2) == days,
        date.0 >= 0 || days < -700_000,
        date.0 <= 9999 || days > 2_900_000,
    decreases
            (if days >= 0 {
                days
            } else {
                -days
            }),
{
    if days == 0 {
        (1970, 1, 1)
    } else if days > 0 {
        let date = lemma_date_exists(days - 1);
        days_are_consecutive(date.0, date.1, date.2);
        let next = if date.2 < days_in_month(date.0, date.1) {
            (date.0, date.1, date.2 + 1)
        } else if date.1 < 12 {
            (date.0, date.1 + 1, 1)
        } else {
            (date.0 + 1, 1, 1)
        };
        lemma_year_bounds(next.0, next.1, next.2);
        next
    } else {
        let date = lemma_date_exists(days + 1);
        let before = if date.2 > 1 {
            (date.0, date.1, date.2 - 1)
        } else if date.1 > 1 {
            (date.0, date.1 - 1, days_in_month(date.0, date.1 - 1))
        } else {
            (date.0 - 1, 12, 31)
        };
        days_are_consecutive(before.0, before.1, before.2);
        lemma_year_bounds(before.0, before.1, before.2);
        before
    }
}

/// A year is no farther from 1970 than its days divided by 365.
proof fn lemma_years_far(year: int)
    ensures
        year >= 1970 ==> days_to_year(year) >= 365 * (year - 1970),
        year <= 1970 ==> days_to_year(year) <= 365 * (year - 1970),
    decreases
            (if year >= 1970 {
                year - 1970
            } else {
                1970 - year
            }),
{
    if year > 1970 {
        lemma_years_far(year - 1);
    } else if year < 1970 {
        lemma_years_far(year + 1);
    }
}

proof fn lemma_year_bounds(year: int, month: int, day: int)
    requires
        is_date(year, month, day),
    ensures
        year >= 0 || day_number(year, month, day) < -700_000,
        year <= 9999 || day_number(year, month, day) > 2_900_000,
{
    lemma_years_far(year);
    lemma_month_bounds(year, month);
}

proof fn lemma_month_bounds(year: int, month: int)
    requires
        1 <= month <= 12,
    ensures
        0 <= crate::time::days_to_month(year, month) <= 31 * (month - 1),
    decreases month,
{
    if month > 1 {
        lemma_month_bounds(year, month - 1);
    }
}

/// A number of no more digits than a column has reads back from it, zeros in front and all.
proof fn lemma_padded(n: int, width: nat)
    requires
        0 <= n,
        width == 2 && n < 100 || width == 3 && n < 1000 || width == 4 && n < 10_000,
    ensures
        padded(n, width).len() == width,
        number_read(padded(n, width)) == n,
{
    a_number_reads_back(n as nat);
    let digits = decimal(n as nat);
    reveal_with_fuel(crate::text::decimal, 5);
    assert(digits.len() <= width);
    lemma_zeros_in_front((width - digits.len()) as nat, digits);
    assert(padded(n, width) =~= crate::text::repeated('0', (width - digits.len()) as nat) + digits);
}

proof fn lemma_zeros_in_front(count: nat, digits: Seq<char>)
    ensures
        number_read(crate::text::repeated('0', count) + digits) == number_read(digits),
    decreases digits.len(), count,
{
    let zeros = crate::text::repeated('0', count);
    if digits.len() > 0 {
        lemma_zeros_in_front(count, digits.drop_last());
        assert((zeros + digits).drop_last() =~= zeros + digits.drop_last());
    } else if count > 0 {
        let fewer = crate::text::repeated('0', (count - 1) as nat);
        lemma_zeros_in_front((count - 1) as nat, digits);
        assert((zeros + digits).drop_last() =~= fewer + digits);
        assert((zeros + digits).last() == '0');
    } else {
        assert(zeros + digits =~= digits);
    }
}

/// A text names the millisecond that an instant is in: what stands in it as year, month, day, hour,
/// minute, second and millisecond is a date and a time of day, and they put the instant together
/// again to the millisecond. Its shape is always the same.
pub proof fn a_text_names_its_millisecond(nanos: int)
    requires
        i64::MIN <= nanos <= i64::MAX,
    ensures
        ({
            let text = iso_text(nanos);
            let year = number_read(text.subrange(0, 4));
            let month = number_read(text.subrange(5, 7));
            let day = number_read(text.subrange(8, 10));
            let hour = number_read(text.subrange(11, 13));
            let minute = number_read(text.subrange(14, 16));
            let second = number_read(text.subrange(17, 19));
            let milli = number_read(text.subrange(20, 23));
            let since = day_number(year, month, day) * 86_400_000 + ((hour * 60 + minute) * 60
                + second) * 1_000 + milli;
            &&& text.len() == 24
            &&& text[4] == '-' && text[7] == '-' && text[10] == 'T' && text[13] == ':' && text[16]
                == ':' && text[19] == '.' && text[23] == 'Z'
            &&& is_date(year, month, day)
            &&& 0 <= hour < 24 && 0 <= minute < 60 && 0 <= second < 60 && 0 <= milli < 1000
            &&& since * 1_000_000 <= nanos < (since + 1) * 1_000_000
        }),
{
    let days = nanos / 86_400_000_000_000;
    let found = lemma_date_exists(days);
    dates_are_distinct(found, date_of(days));
    let date = date_of(days);
    lemma_month_of(date.0, date.1, date.2);
    let (hour, minute, second, nano) = time_of_day(nanos);
    a_day_is_hours_minutes_and_seconds(nanos);
    lemma_fundamental_div_mod(nano, 1_000_000);
    lemma_padded(date.0, 4);
    lemma_padded(date.1, 2);
    lemma_padded(date.2, 2);
    lemma_padded(hour, 2);
    lemma_padded(minute, 2);
    lemma_padded(second, 2);
    lemma_padded(nano / 1_000_000, 3);
    reveal_strlit("-");
    reveal_strlit("T");
    reveal_strlit(":");
    reveal_strlit(".");
    reveal_strlit("Z");
    let text = iso_text(nanos);
    assert(text.subrange(0, 4) =~= padded(date.0, 4));
    assert(text.subrange(5, 7) =~= padded(date.1, 2));
    assert(text.subrange(8, 10) =~= padded(date.2, 2));
    assert(text.subrange(11, 13) =~= padded(hour, 2));
    assert(text.subrange(14, 16) =~= padded(minute, 2));
    assert(text.subrange(17, 19) =~= padded(second, 2));
    assert(text.subrange(20, 23) =~= padded(nano / 1_000_000, 3));
}

proof fn lemma_month_of(year: int, month: int, day: int)
    requires
        is_date(year, month, day),
    ensures
        1 <= month <= 12,
        1 <= day <= 31,
{
}

} // verus!
