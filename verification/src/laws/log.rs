//! What rings and logs promise of what they were given.

use vstd::prelude::*;

use crate::event::{logged, logged_all, totalled_up, EventView};
use crate::ring::{newest, pushed};

verus! {

/// The newest of several items: as many of the last as are asked for, in their order, or all of
/// them where there are fewer.
pub proof fn the_newest_are_the_last<T>(items: Seq<T>, count: nat, place: int)
    ensures
        newest(items, count).len() == (if items.len() <= count {
            items.len()
        } else {
            count
        }),
        0 <= place < newest(items, count).len() ==> newest(items, count)[place] == items[items.len()
            - newest(items, count).len() + place],
{
}

/// What is pushed into a ring is its newest item; every other one keeps its place from the new end,
/// and only the oldest goes, and only where the ring was full. A ring of no room takes nothing.
pub proof fn a_push_is_the_newest<T>(held: Seq<T>, capacity: nat, item: T, place: int)
    requires
        held.len() <= capacity,
    ensures
        ({
            let after = pushed(held, capacity, item);
            &&& capacity == 0 ==> after.len() == 0
            &&& capacity > 0 ==> after.len() > 0 && after.last() == item
            &&& capacity > 0 && held.len() < capacity ==> after.len() == held.len() + 1
            &&& capacity > 0 && held.len() == capacity ==> after.len() == capacity
            &&& capacity > 0 && 0 <= place < after.len() - 1 ==> after[place] == held[held.len() - (
            after.len() - 1) + place]
        }),
{
}

/// An event is always the last line: where it says what the last line said, that line is said once
/// more, at the new instant, and nothing else changes; where it does not, it is a line of its own,
/// said once, and the others stay, but for the oldest of a full log.
pub proof fn an_event_is_the_last_line(
    lines: Seq<(EventView, u32)>,
    capacity: nat,
    event: EventView,
)
    requires
        0 < capacity,
        lines.len() <= capacity,
    ensures
        ({
            let after = logged(lines, capacity, event);
            let again = lines.len() > 0 && lines.last().0.severity == event.severity
                && lines.last().0.source == event.source && lines.last().0.message
                == event.message;
            &&& after.len() > 0
            &&& after.last().0 == event
            &&& again ==> after.drop_last() == lines.drop_last()
            &&& again && lines.last().1 < u32::MAX ==> after.last().1 == lines.last().1 + 1
            &&& again && lines.last().1 == u32::MAX ==> after.last().1 == u32::MAX
            &&& !again ==> after.last().1 == 1
            &&& !again && lines.len() < capacity ==> after.drop_last() == lines
            &&& !again && lines.len() == capacity ==> after.drop_last() == lines.skip(1)
        }),
{
    let after = logged(lines, capacity, event);
    if lines.len() > 0 && crate::event::same_line(lines.last().0, event) {
        assert(after.drop_last() =~= lines.drop_last());
    } else if lines.len() < capacity {
        assert(after.drop_last() =~= lines);
    } else {
        assert(after.drop_last() =~= lines.skip(1));
    }
}

/// A log counts every push, up to the largest count there is.
pub proof fn every_push_is_totalled(total: u64)
    ensures
        total < u64::MAX ==> totalled_up(total) == total + 1,
        total == u64::MAX ==> totalled_up(total) == total,
{
}

/// Several events are logged one after the other.
pub proof fn events_are_logged_in_order(
    lines: Seq<(EventView, u32)>,
    capacity: nat,
    events: Seq<EventView>,
    event: EventView,
)
    ensures
        logged_all(lines, capacity, Seq::<EventView>::empty()) == lines,
        logged_all(lines, capacity, events.push(event)) == logged(
            logged_all(lines, capacity, events),
            capacity,
            event,
        ),
{
    assert(events.push(event).drop_last() =~= events);
}

} // verus!
