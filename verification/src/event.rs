//! The event log: what the station wants to tell the operator, in order, bounded.
//!
//! A station pointed at a definition that does not describe the stream will produce one event
//! per packet, and an unbounded log is then a memory leak with a scrollbar.

use vstd::prelude::*;

use crate::ring::{pushed, RingBuffer};
use crate::text::same_text;
use crate::time::Utc;

verus! {

/// How much attention a line deserves.
#[derive(Clone, Copy, PartialEq, Eq, PartialOrd, Ord, Debug, Structural)]
pub enum Severity {
    /// Something happened that was expected.
    Info,
    /// Something happened that the operator should know about, and the station continued.
    Warning,
    /// Something failed.
    Error,
}

impl Severity {
    /// A single letter for a narrow column.
    pub fn letter(self) -> (r: char)
        ensures
            r == (match self {
                Severity::Info => 'i',
                Severity::Warning => '!',
                Severity::Error => 'x',
            }),
    {
        match self {
            Severity::Info => 'i',
            Severity::Warning => '!',
            Severity::Error => 'x',
        }
    }
}

/// One line of the log.
#[derive(Clone, Debug)]
pub struct Event {
    /// When it happened.
    pub time: Utc,
    /// How much it matters.
    pub severity: Severity,
    /// Which part of the station said it: `link`, `frame`, `decode`, `session`.
    pub source: &'static str,
    /// What it said.
    pub message: String,
}

/// What one line of the log says.
#[verifier::ext_equal]
pub struct EventView {
    pub time: Utc,
    pub severity: Severity,
    pub source: Seq<char>,
    pub message: Seq<char>,
}

impl View for Event {
    type V = EventView;

    open spec fn view(&self) -> EventView {
        EventView {
            time: self.time,
            severity: self.severity,
            source: self.source@,
            message: self.message@,
        }
    }
}

impl Event {
    /// An informational line, stamped now.
    pub fn info(source: &'static str, message: String) -> (r: Self)
        ensures
            r@ == (EventView {
                time: r.time,
                severity: Severity::Info,
                source: source@,
                message: message@,
            }),
    {
        Self::at(Utc::now(), Severity::Info, source, message)
    }

    /// A warning, stamped now.
    pub fn warning(source: &'static str, message: String) -> (r: Self)
        ensures
            r@ == (EventView {
                time: r.time,
                severity: Severity::Warning,
                source: source@,
                message: message@,
            }),
    {
        Self::at(Utc::now(), Severity::Warning, source, message)
    }

    /// An error, stamped now.
    pub fn error(source: &'static str, message: String) -> (r: Self)
        ensures
            r@ == (EventView {
                time: r.time,
                severity: Severity::Error,
                source: source@,
                message: message@,
            }),
    {
        Self::at(Utc::now(), Severity::Error, source, message)
    }

    /// A line at a given instant.
    pub fn at(time: Utc, severity: Severity, source: &'static str, message: String) -> (r: Self)
        ensures
            r@ == (EventView { time, severity, source: source@, message: message@ }),
    {
        Event { time, severity, source, message }
    }
}

/// Whether two lines say the same thing, whenever they were said.
pub open spec fn same_line(a: EventView, b: EventView) -> bool {
    a.severity == b.severity && a.source == b.source && a.message == b.message
}

/// One more than a count, stopping at the largest.
pub open spec fn counted_up(count: u32) -> u32 {
    if count == u32::MAX {
        count
    } else {
        (count + 1) as u32
    }
}

/// One more than a total, stopping at the largest.
pub open spec fn totalled_up(total: u64) -> u64 {
    if total == u64::MAX {
        total
    } else {
        (total + 1) as u64
    }
}

/// The lines of a log, each with its count, after one more event: the last line's count goes
/// up where the event says the same again, and a line is added where it does not.
pub open spec fn logged(lines: Seq<(EventView, u32)>, capacity: nat, event: EventView) -> Seq<
    (EventView, u32),
> {
    if lines.len() > 0 && same_line(lines.last().0, event) {
        lines.update(
            lines.len() - 1,
            (EventView { time: event.time, ..lines.last().0 }, counted_up(lines.last().1)),
        )
    } else {
        pushed(lines, capacity, (event, 1u32))
    }
}

/// The lines of a log after several events, in order.
pub open spec fn logged_all(
    lines: Seq<(EventView, u32)>,
    capacity: nat,
    events: Seq<EventView>,
) -> Seq<(EventView, u32)>
    decreases events.len(),
{
    if events.len() == 0 {
        lines
    } else {
        logged(logged_all(lines, capacity, events.drop_last()), capacity, events.last())
    }
}

/// A bounded log that also collapses a line repeated back to back.
#[derive(Debug)]
pub struct EventLog {
    entries: RingBuffer<(Event, u32)>,
    total: u64,
}

impl EventLog {
    /// What every log keeps.
    pub closed spec fn wf(&self) -> bool {
        self.entries.wf()
    }

    /// The lines held, oldest first, each with how many times it was repeated.
    pub closed spec fn lines(&self) -> Seq<(EventView, u32)> {
        self.entries@.map_values(|entry: (Event, u32)| (entry.0@, entry.1))
    }

    /// How many distinct lines the log can hold.
    pub closed spec fn limit(&self) -> nat {
        self.entries.limit()
    }

    /// How many lines have ever been pushed.
    pub closed spec fn pushes(&self) -> u64 {
        self.total
    }

    /// A log holds no more lines than it can.
    pub proof fn lemma_bounded(&self)
        requires
            self.wf(),
        ensures
            self.lines().len() <= self.limit(),
    {
        self.entries.lemma_bounded();
    }

    /// A log holding at most `capacity` distinct lines.
    pub fn with_capacity(capacity: usize) -> (r: Self)
        ensures
            r.wf(),
            r.limit() == capacity,
            r.lines() == Seq::<(EventView, u32)>::empty(),
            r.pushes() == 0,
    {
        let log = EventLog { entries: RingBuffer::with_capacity(capacity), total: 0 };
        assert(log.lines() =~= Seq::<(EventView, u32)>::empty());
        log
    }

    /// Appends a line, or bumps the repeat count if it equals the last one.
    pub fn push(&mut self, event: Event)
        requires
            old(self).wf(),
        ensures
            final(self).wf(),
            final(self).limit() == old(self).limit(),
            final(self).lines() == logged(old(self).lines(), old(self).limit(), event@),
            final(self).pushes() == totalled_up(old(self).pushes()),
    {
        if self.total < u64::MAX {
            self.total = self.total + 1;
        }
        let repeats = match self.entries.last() {
            Some(entry) => entry.0.severity == event.severity && same_text(
                entry.0.source,
                event.source,
            ) && entry.0.message == event.message,
            None => false,
        };
        let ghost event_view = event@;
        if repeats {
            if let Some(entry) = self.entries.last_mut() {
                entry.0.time = event.time;
                if entry.1 < u32::MAX {
                    entry.1 = entry.1 + 1;
                }
            }
        } else {
            self.entries.push((event, 1));
        }
        assert(self.lines() =~= logged(old(self).lines(), old(self).limit(), event_view));
    }

    /// Every line held, oldest first, with how many times each was repeated.
    pub fn iter(&self) -> (r: Vec<(&Event, u32)>)
        requires
            self.wf(),
        ensures
            r@.len() == self.lines().len(),
            forall|i: int|
                0 <= i < r@.len() ==> (#[trigger] r@[i]).0@ == self.lines()[i].0 && r@[i].1
                    == self.lines()[i].1,
    {
        let entries = self.entries.iter();
        let mut all: Vec<(&Event, u32)> = Vec::with_capacity(entries.len());
        let mut index: usize = 0;
        while index < entries.len()
            invariant
                entries@.len() == self.entries@.len(),
                forall|i: int| 0 <= i < entries@.len() ==> *(#[trigger] entries@[i]) == self.entries@[i],
                index <= entries@.len(),
                all@.len() == index,
                forall|i: int|
                    0 <= i < index ==> (#[trigger] all@[i]).0@ == self.lines()[i].0 && all@[i].1
                        == self.lines()[i].1,
            decreases entries@.len() - index,
        {
            let entry: &(Event, u32) = entries[index];
            all.push((&entry.0, entry.1));
            index = index + 1;
        }
        all
    }

    /// The most recent line.
    pub fn last(&self) -> (r: Option<&Event>)
        requires
            self.wf(),
        ensures
            r is Some <==> self.lines().len() > 0,
            r matches Some(event) ==> event@ == self.lines().last().0,
    {
        match self.entries.last() {
            Some(entry) => Some(&entry.0),
            None => None,
        }
    }

    /// How many lines are held.
    pub fn len(&self) -> (r: usize)
        requires
            self.wf(),
        ensures
            r == self.lines().len(),
    {
        self.entries.len()
    }

    /// Whether the log holds nothing.
    pub fn is_empty(&self) -> (r: bool)
        requires
            self.wf(),
        ensures
            r == (self.lines().len() == 0),
    {
        self.entries.is_empty()
    }

    /// How many lines have ever been pushed, repeats included.
    pub fn total(&self) -> (r: u64)
        ensures
            r == self.pushes(),
    {
        self.total
    }

    /// Drops every line, keeping the total.
    pub fn clear(&mut self)
        requires
            old(self).wf(),
        ensures
            final(self).wf(),
            final(self).limit() == old(self).limit(),
            final(self).lines() == Seq::<(EventView, u32)>::empty(),
            final(self).pushes() == old(self).pushes(),
    {
        self.entries.clear();
        assert(self.lines() =~= Seq::<(EventView, u32)>::empty());
    }
}

/// However often a line is said, a log holds it once, with how often it was said.
pub proof fn a_repeated_line_is_held_once(
    lines: Seq<(EventView, u32)>,
    capacity: nat,
    event: EventView,
    times: nat,
)
    requires
        0 < capacity,
        0 < times,
        lines.len() > 0 ==> !same_line(lines.last().0, event),
    ensures
        logged_all(lines, capacity, Seq::new(times, |i: int| event)) == pushed(
            lines,
            capacity,
            (
                event,
                if times <= u32::MAX {
                    times as u32
                } else {
                    u32::MAX
                },
            ),
        ),
    decreases times,
{
    let said = Seq::new(times, |i: int| event);
    let before = Seq::new((times - 1) as nat, |i: int| event);
    assert(said.drop_last() =~= before);
    if times == 1 {
        assert(logged_all(lines, capacity, before) == lines);
    } else {
        a_repeated_line_is_held_once(lines, capacity, event, (times - 1) as nat);
    }
    assert(logged_all(lines, capacity, said) =~= pushed(
        lines,
        capacity,
        (
            event,
            if times <= u32::MAX {
                times as u32
            } else {
                u32::MAX
            },
        ),
    ));
}

/// A log never outgrows its capacity, whatever is said.
pub proof fn a_log_is_bounded(
    lines: Seq<(EventView, u32)>,
    capacity: nat,
    events: Seq<EventView>,
)
    requires
        lines.len() <= capacity,
    ensures
        logged_all(lines, capacity, events).len() <= capacity,
    decreases events.len(),
{
    if events.len() > 0 {
        a_log_is_bounded(lines, capacity, events.drop_last());
    }
}

} // verus!
