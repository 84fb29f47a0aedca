//! What limits promise an operator.

use vstd::prelude::*;

use crate::float::{nearest_double, nearest_double_int, Float64};
use crate::limits::{Limit, LimitSet, LimitState, Range};
use crate::value::ValueView;

verus! {

/// A number below a set lower end is outside a range and one above a set upper end is outside it,
/// whether or not the other end is set; every other number is inside, the ends themselves too. An
/// end that is not a number keeps everything out.
pub proof fn a_range_ends_where_it_says(range: Range, value: Float64, low: Float64, high: Float64)
    requires
        !value.nan(),
        !low.nan(),
        !high.nan(),
    ensures
        range.low == Some(low) && value.below(low) ==> !range.holds(value),
        range.high == Some(high) && high.below(value) ==> !range.holds(value),
        range.low == Some(low) && range.high is None ==> range.holds(value) == !value.below(low),
        range.low is None && range.high == Some(high) ==> range.holds(value) == !high.below(value),
        range.low == Some(low) && range.high == Some(high) ==> range.holds(value) == (!value.below(
            low,
        ) && !high.below(value)),
        range.low is None && range.high is None ==> range.holds(value),
        range.low matches Some(end) && end.nan() ==> !range.holds(value),
        range.high matches Some(end) && end.nan() ==> !range.holds(value),
{
}

/// The two ends of a range do not depend on each other: what is inside a range is what is inside
/// each half of it.
pub proof fn a_range_is_its_two_halves(range: Range, value: Float64)
    ensures
        range.holds(value) <==> (Range { low: range.low, high: None }).holds(value) && (Range {
            low: None,
            high: range.high,
        }).holds(value),
        range.bounded() <==> (Range { low: range.low, high: None }).bounded() || (Range {
            low: None,
            high: range.high,
        }).bounded(),
        (Range { low: range.low, high: None }).bounded() <==> range.low is Some,
        (Range { low: None, high: range.high }).bounded() <==> range.high is Some,
{
}

/// A number between two that are inside a range is inside it too.
pub proof fn a_range_has_no_holes(range: Range, a: Float64, value: Float64, b: Float64)
    requires
        range.holds(a),
        range.holds(b),
        a.at_most(value),
        value.at_most(b),
    ensures
        range.holds(value),
{
}

/// Whether a number is beyond an end of a range.
pub open spec fn is_beyond(low: Option<Float64>, high: Option<Float64>, value: Float64) -> bool {
    (low matches Some(end) && !end.at_most(value)) || (high matches Some(end) && !value.at_most(end))
}

/// A number beyond an alarm end is an alarm; one beyond no alarm end and beyond a warning end is a
/// warning; one beyond none of them is nominal, where any end is set at all. Where none is, and of
/// what is not a number, nothing is known.
pub proof fn a_number_is_judged_by_the_ends(limit: Limit, value: Float64)
    ensures
        ({
            let alarm = is_beyond(limit.alarm.low, limit.alarm.high, value);
            let warning = is_beyond(limit.warning.low, limit.warning.high, value);
            let set = limit.alarm.low is Some || limit.alarm.high is Some || limit.warning.low is Some
                || limit.warning.high is Some;
            let state = limit.state_of(value);
            &&& state == LimitState::Unknown <==> value.nan() || !set
            &&& !value.nan() ==> (state == LimitState::Alarm <==> alarm)
            &&& !value.nan() ==> (state == LimitState::Warning <==> warning && !alarm)
            &&& !value.nan() && set ==> (state == LimitState::Nominal <==> !alarm && !warning)
        }),
{
}

/// A limit that is taken away never makes a state more serious: without its alarm range a limit
/// gives at most a warning, and without its warning range a number that was an alarm still is.
pub proof fn each_range_has_its_own_state(limit: Limit, value: Float64)
    ensures
        (Limit { alarm: Range { low: None, high: None }, ..limit }).state_of(value)
            != LimitState::Alarm,
        (Limit { warning: Range { low: None, high: None }, ..limit }).state_of(value)
            != LimitState::Warning,
        limit.state_of(value) == LimitState::Alarm ==> (Limit {
            warning: Range { low: None, high: None },
            ..limit
        }).state_of(value) == LimitState::Alarm,
        (Limit { alarm: Range { low: None, high: None }, ..limit }).state_of(value)
            == LimitState::Warning ==> limit.state_of(value) == LimitState::Warning
            || limit.state_of(value) == LimitState::Alarm,
{
}

/// A value of a kind that has a number is judged as that number by the limit under its name, and
/// by no other; a label, a text and bytes are never judged, nor is a name that has no limit.
pub proof fn a_value_is_judged_under_its_name(set: &LimitSet, name: Seq<char>, value: ValueView)
    ensures
        !set@.contains_key(name) ==> set.state_of(name, value) == LimitState::Unknown,
        value is Label || value is Text || value is Bytes ==> set.state_of(name, value)
            == LimitState::Unknown,
        set@.contains_key(name) ==> match value {
            ValueView::Float(number) => set.state_of(name, value) == set@[name].state_of(number),
            ValueView::Unsigned(number) => set.state_of(name, value) == set@[name].state_of(
                nearest_double(number as nat),
            ),
            ValueView::Signed(number) => set.state_of(name, value) == set@[name].state_of(
                nearest_double_int(number as int),
            ),
            ValueView::Bool(flag) => set.state_of(name, value) == set@[name].state_of(
                nearest_double(
                    if flag {
                        1
                    } else {
                        0
                    },
                ),
            ),
            _ => true,
        },
{
}

/// What is shown for a state tells it from every other.
pub proof fn labels_tell_states_apart(a: LimitState, b: LimitState)
    ensures
        a.text() == b.text() ==> a == b,
        LimitState::Nominal.text() == seq!['o', 'k'],
        LimitState::Warning.text() == seq!['W', 'A', 'R', 'N'],
        LimitState::Alarm.text() == seq!['A', 'L', 'A', 'R', 'M'],
        LimitState::Unknown.text() == seq!['—'],
{
    reveal_strlit("ok");
    reveal_strlit("WARN");
    reveal_strlit("ALARM");
    reveal_strlit("—");
    let texts = (a.text().len(), b.text().len());
}

/// Two ranges are equal exactly where both of their ends are: both open, or at equal numbers.
pub proof fn ranges_are_equal_end_by_end(a: Range, b: Range)
    ensures
        a.agrees(b) ==> (a.low is Some <==> b.low is Some) && (a.high is Some <==> b.high is Some),
        a.agrees(b) ==> (a.low matches Some(x) ==> x.equal(b.low->0)),
        a.agrees(b) ==> (a.high matches Some(x) ==> x.equal(b.high->0)),
        a.agrees(b) == b.agrees(a),
        a == b && (a.low matches Some(x) ==> !x.nan()) && (a.high matches Some(x) ==> !x.nan())
            ==> a.agrees(b),
{
}

} // verus!
