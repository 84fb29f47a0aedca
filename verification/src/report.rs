//! Lines for a terminal: events, and the counters of a running session.

use vstd::prelude::*;
use vstd::string::*;

use crate::cli::text_views;
use crate::decode::event_views;
use crate::event::{
    a_log_is_bounded, logged, logged_all, same_line, totalled_up, Event, EventLog, EventView,
    Severity,
};
use crate::sequence::saturated_sum;
use crate::stats::StatsSnapshot;
use crate::text::{decimal, push_decimal};
use crate::time::{iso_text, Utc};

verus! {

/// The letter of a severity.
pub open spec fn severity_letter(severity: Severity) -> char {
    match severity {
        Severity::Info => 'i',
        Severity::Warning => '!',
        Severity::Error => 'x',
    }
}

/// One event as a line.
pub open spec fn event_text(event: EventView) -> Seq<char> {
    (iso_text(event.time.nanos()) + " "@).push(severity_letter(event.severity)) + " "@
        + event.source + ": "@ + event.message
}

/// One event as a line.
pub fn event_line(event: &Event) -> (r: String)
    ensures
        r@ == event_text(event@),
{
    let mut line: String = event.time.to_string();
    line.append(" ");
    line.push(event.severity.letter());
    line.append(" ");
    line.append(event.source);
    line.append(": ");
    line.append(event.message.as_str());
    line
}

/// Whether an event is shown: an informational one only to an operator who asked for more.
pub open spec fn is_shown(event: EventView, verbose: bool) -> bool {
    verbose || event.severity != Severity::Info
}

/// The lines of several events, those that are shown.
pub open spec fn shown_lines(events: Seq<EventView>, verbose: bool) -> Seq<Seq<char>>
    decreases events.len(),
{
    if events.len() == 0 {
        Seq::empty()
    } else if is_shown(events.last(), verbose) {
        shown_lines(events.drop_last(), verbose).push(event_text(events.last()))
    } else {
        shown_lines(events.drop_last(), verbose)
    }
}

/// The lines of what the link and the decoder had to say.
pub fn report_events(events: &Vec<Event>, verbose: bool) -> (r: Vec<String>)
    ensures
        text_views(r@) == shown_lines(event_views(events@), verbose),
{
    let ghost all = event_views(events@);
    let mut lines: Vec<String> = Vec::new();
    let mut index: usize = 0;
    assert(text_views(lines@) =~= shown_lines(all.take(0), verbose));
    while index < events.len()
        invariant
            index <= events@.len(),
            all == event_views(events@),
            text_views(lines@) == shown_lines(all.take(index as int), verbose),
        decreases events@.len() - index,
    {
        let ghost next = all.take(index + 1);
        assert(next.drop_last() =~= all.take(index as int));
        if verbose || events[index].severity != Severity::Info {
            lines.push(event_line(&events[index]));
        }
        assert(text_views(lines@) =~= shown_lines(next, verbose));
        index = index + 1;
    }
    assert(all.take(index as int) =~= all);
    lines
}

/// How many pushes the lines of a log stand for, stopping at the largest.
pub open spec fn held_pushes(lines: Seq<(EventView, u32)>) -> u64
    decreases lines.len(),
{
    if lines.len() == 0 {
        0
    } else {
        saturated_sum(held_pushes(lines.drop_last()), lines.last().1 as int)
    }
}

/// The number of the push that the oldest line held comes after: everything that has been
/// evicted.
pub open spec fn evicted_pushes(lines: Seq<(EventView, u32)>, total: u64) -> u64 {
    if held_pushes(lines) > total {
        0
    } else {
        (total - held_pushes(lines)) as u64
    }
}

/// The number of the push that the last of the first `count` lines ends at.
pub open spec fn ends_at(lines: Seq<(EventView, u32)>, total: u64, count: nat) -> u64
    decreases count,
{
    if count == 0 {
        evicted_pushes(lines, total)
    } else {
        saturated_sum(ends_at(lines, total, (count - 1) as nat), lines[count - 1].1 as int)
    }
}

/// A line of a log with how often it was repeated.
pub open spec fn repeated_text(line: (EventView, u32)) -> Seq<char> {
    if line.1 > 1 {
        event_text(line.0) + " (x"@ + decimal(line.1 as nat) + ")"@
    } else {
        event_text(line.0)
    }
}

/// A printer that has considered the first `count` lines of a log: how far it has come, and
/// what it has printed.
pub open spec fn printed(
    lines: Seq<(EventView, u32)>,
    total: u64,
    cursor: u64,
    verbose: bool,
    count: nat,
) -> (u64, Seq<Seq<char>>)
    decreases count,
{
    if count == 0 {
        (cursor, Seq::empty())
    } else {
        let before = printed(lines, total, cursor, verbose, (count - 1) as nat);
        let at = ends_at(lines, total, count);
        let line = lines[count - 1];
        if at <= before.0 {
            before
        } else if is_shown(line.0, verbose) {
            (at, before.1.push(repeated_text(line)))
        } else {
            (at, before.1)
        }
    }
}

/// The lines `cursor` has not seen yet, oldest first, moving it past them.
///
/// The cursor counts pushes. The lines held account for the last pushes, so the line ending at
/// push `n` can be named by `n` alone, and that name survives eviction. Only the last line's
/// count can grow, which is what makes a collapsed line reprint when its count has risen. The
/// cursor moves past every line it considers, printed or not.
pub fn unprinted_events(log: &EventLog, cursor: &mut u64, verbose: bool) -> (r: Vec<String>)
    requires
        log.wf(),
    ensures
        ({
            let after = printed(
                log.lines(),
                log.pushes(),
                *old(cursor),
                verbose,
                log.lines().len(),
            );
            *final(cursor) == after.0 && text_views(r@) == after.1
        }),
{
    let ghost all = log.lines();
    let ghost total = log.pushes();
    let ghost start = *cursor;
    let entries: Vec<(&Event, u32)> = log.iter();
    let mut held: u64 = 0;
    let mut index: usize = 0;
    while index < entries.len()
        invariant
            index <= entries@.len(),
            entries@.len() == all.len(),
            forall|i: int|
                0 <= i < entries@.len() ==> (#[trigger] entries@[i]).0@ == all[i].0
                    && entries@[i].1 == all[i].1,
            held == held_pushes(all.take(index as int)),
        decreases entries@.len() - index,
    {
        assert(all.take(index + 1).drop_last() =~= all.take(index as int));
        held = held.saturating_add(entries[index].1 as u64);
        index = index + 1;
    }
    assert(all.take(index as int) =~= all);
    let pushes: u64 = log.total();
    let mut at: u64 = if held > pushes {
        0
    } else {
        pushes - held
    };
    let mut lines: Vec<String> = Vec::new();
    let mut next: usize = 0;
    assert(text_views(lines@) =~= Seq::<Seq<char>>::empty());
    while next < entries.len()
        invariant
            next <= entries@.len(),
            entries@.len() == all.len(),
            forall|i: int|
                0 <= i < entries@.len() ==> (#[trigger] entries@[i]).0@ == all[i].0
                    && entries@[i].1 == all[i].1,
            at == ends_at(all, total, next as nat),
            (*cursor, text_views(lines@)) == printed(all, total, start, verbose, next as nat),
        decreases entries@.len() - next,
    {
        let event: &Event = entries[next].0;
        let count: u32 = entries[next].1;
        let ghost before = printed(all, total, start, verbose, next as nat);
        at = at.saturating_add(count as u64);
        next = next + 1;
        if at > *cursor {
            *cursor = at;
            if verbose || event.severity != Severity::Info {
                let mut line: String = event_line(event);
                if count > 1 {
                    line.append(" (x");
                    push_decimal(&mut line, count as u64);
                    line.append(")");
                }
                lines.push(line);
                assert(text_views(lines@) =~= before.1.push(repeated_text(all[next - 1])));
            }
        }
    }
    lines
}

/// One line of counters for a session that runs without a window.
///
/// `loss` is the frame loss in per cent and `age` the seconds since the last packet, each as
/// the line shows it. The frame figures are left out where the link carries no frames.
pub open spec fn status_text(
    snapshot: StatsSnapshot,
    framed: bool,
    now: Utc,
    loss: Seq<char>,
    age: Seq<char>,
) -> Seq<char> {
    let start = iso_text(now.nanos()) + " bytes="@ + decimal(snapshot.bytes_in as nat);
    let frames = if framed {
        start + " frames="@ + decimal(snapshot.frames_ok as nat) + "/"@ + decimal(
            snapshot.frames_seen as nat,
        ) + " loss="@ + loss + "% rs="@ + decimal(snapshot.rs_corrected as nat) + "/"@ + decimal(
            snapshot.rs_uncorrectable as nat,
        ) + " crc="@ + decimal(snapshot.crc_failures as nat)
    } else {
        start
    };
    let packets = frames + " packets="@ + decimal(snapshot.packets_in as nat) + " decoded="@
        + decimal(snapshot.packets_decoded as nat) + " rejected="@ + decimal(
        snapshot.packets_rejected as nat,
    ) + " lost="@ + decimal(snapshot.packets_lost as nat) + " gaps="@ + decimal(
        snapshot.sequence_gaps as nat,
    ) + " missing="@ + decimal(snapshot.sequence_missing as nat);
    if snapshot.last_packet is Some {
        packets + " last="@ + age + "s ago"@
    } else {
        packets + " last=never"@
    }
}

/// Formats one status line into `line`, which is reused between intervals.
///
/// `loss` is the frame loss in per cent to two places, `age` the seconds since the last packet
/// to one.
pub fn status_line(
    line: &mut String,
    snapshot: &StatsSnapshot,
    framed: bool,
    now: Utc,
    loss: &str,
    age: &str,
)
    ensures
        final(line)@ == status_text(*snapshot, framed, now, loss@, age@),
{
    *line = now.to_string();
    line.append(" bytes=");
    push_decimal(line, snapshot.bytes_in);
    if framed {
        line.append(" frames=");
        push_decimal(line, snapshot.frames_ok);
        line.append("/");
        push_decimal(line, snapshot.frames_seen);
        line.append(" loss=");
        line.append(loss);
        line.append("% rs=");
        push_decimal(line, snapshot.rs_corrected);
        line.append("/");
        push_decimal(line, snapshot.rs_uncorrectable);
        line.append(" crc=");
        push_decimal(line, snapshot.crc_failures);
    }
    line.append(" packets=");
    push_decimal(line, snapshot.packets_in);
    line.append(" decoded=");
    push_decimal(line, snapshot.packets_decoded);
    line.append(" rejected=");
    push_decimal(line, snapshot.packets_rejected);
    line.append(" lost=");
    push_decimal(line, snapshot.packets_lost);
    line.append(" gaps=");
    push_decimal(line, snapshot.sequence_gaps);
    line.append(" missing=");
    push_decimal(line, snapshot.sequence_missing);
    if snapshot.last_packet.is_some() {
        line.append(" last=");
        line.append(age);
        line.append("s ago");
    } else {
        line.append(" last=never");
    }
}

/// The number of the push that the last line of a log ends at is the number of the last push,
/// and every other line ends before the last line begins.
proof fn lemma_ends(lines: Seq<(EventView, u32)>, total: u64, count: nat)
    requires
        held_pushes(lines) <= total,
        held_pushes(lines) < u64::MAX,
        count <= lines.len(),
    ensures
        ends_at(lines, total, count) == total - held_pushes(lines) + held_pushes(
            lines.take(count as int),
        ),
        held_pushes(lines.take(count as int)) <= held_pushes(lines),
{
    lemma_held_increases(lines, count);
    if count > 0 {
        lemma_ends_step(lines, total, count);
    } else {
        assert(lines.take(0) =~= Seq::<(EventView, u32)>::empty());
    }
}

proof fn lemma_held_increases(lines: Seq<(EventView, u32)>, count: nat)
    requires
        count <= lines.len(),
    ensures
        held_pushes(lines.take(count as int)) <= held_pushes(lines),
    decreases lines.len() - count,
{
    if count < lines.len() {
        lemma_held_increases(lines, count + 1);
        assert(lines.take((count + 1) as int).drop_last() =~= lines.take(count as int));
    } else {
        assert(lines.take(count as int) =~= lines);
    }
}

proof fn lemma_ends_step(lines: Seq<(EventView, u32)>, total: u64, count: nat)
    requires
        held_pushes(lines) <= total,
        held_pushes(lines) < u64::MAX,
        0 < count <= lines.len(),
    ensures
        ends_at(lines, total, count) == total - held_pushes(lines) + held_pushes(
            lines.take(count as int),
        ),
    decreases count,
{
    lemma_held_increases(lines, count);
    lemma_held_increases(lines, (count - 1) as nat);
    assert(lines.take(count as int).drop_last() =~= lines.take(count - 1));
    if count > 1 {
        lemma_ends_step(lines, total, (count - 1) as nat);
    } else {
        assert(lines.take(0) =~= Seq::<(EventView, u32)>::empty());
        assert(ends_at(lines, total, 0) == evicted_pushes(lines, total));
    }
    assert(lines.take(count as int).last() == lines[count - 1]);
}

proof fn lemma_nothing_new(
    lines: Seq<(EventView, u32)>,
    total: u64,
    cursor: u64,
    verbose: bool,
    count: nat,
)
    requires
        held_pushes(lines) <= total,
        held_pushes(lines) < u64::MAX,
        count <= lines.len(),
        total - held_pushes(lines) + held_pushes(lines.take(count as int)) <= cursor,
    ensures
        printed(lines, total, cursor, verbose, count) == (cursor, Seq::<Seq<char>>::empty()),
    decreases count,
{
    if count > 0 {
        lemma_ends(lines, total, count);
        assert(lines.take(count as int).drop_last() =~= lines.take(count - 1));
        lemma_nothing_new(lines, total, cursor, verbose, (count - 1) as nat);
    }
}

/// Whether the lines of a log account for pushes that were counted: none stands for none, and
/// together they stand for no more than were made.
pub open spec fn accounted(lines: Seq<(EventView, u32)>, total: u64) -> bool {
    &&& held_pushes(lines) <= total < u64::MAX
    &&& forall|i: int| 0 <= i < lines.len() ==> (#[trigger] lines[i]).1 >= 1
}

/// A printer that has come as far as the last push has nothing to print.
pub proof fn nothing_is_printed_twice(lines: Seq<(EventView, u32)>, total: u64, verbose: bool)
    requires
        accounted(lines, total),
    ensures
        printed(lines, total, total, verbose, lines.len()) == (total, Seq::<Seq<char>>::empty()),
{
    assert(lines.take(lines.len() as int) =~= lines);
    lemma_nothing_new(lines, total, total, verbose, lines.len());
}

proof fn lemma_held_skip(lines: Seq<(EventView, u32)>)
    requires
        lines.len() > 0,
        held_pushes(lines) < u64::MAX,
    ensures
        held_pushes(lines.skip(1)) + lines[0].1 == held_pushes(lines),
    decreases lines.len(),
{
    if lines.len() == 1 {
        assert(lines.skip(1) =~= Seq::<(EventView, u32)>::empty());
        assert(lines.drop_last() =~= Seq::<(EventView, u32)>::empty());
    } else {
        lemma_held_increases(lines, (lines.len() - 1) as nat);
        assert(lines.take(lines.len() - 1) =~= lines.drop_last());
        lemma_held_skip(lines.drop_last());
        assert(lines.skip(1).drop_last() =~= lines.drop_last().skip(1));
    }
}

/// A log goes on accounting for its pushes: whatever is pushed, and whatever is evicted by it.
pub proof fn pushes_stay_accounted(
    lines: Seq<(EventView, u32)>,
    capacity: nat,
    total: u64,
    event: EventView,
)
    requires
        accounted(lines, total),
        capacity > 0,
        lines.len() <= capacity,
        total + 1 < u64::MAX,
    ensures
        accounted(logged(lines, capacity, event), totalled_up(total)),
{
    let after = logged(lines, capacity, event);
    if lines.len() > 0 && same_line(lines.last().0, event) {
        assert(after.drop_last() =~= lines.drop_last());
    } else if lines.len() < capacity {
        assert(after.drop_last() =~= lines);
    } else {
        lemma_held_skip(lines);
        assert(after.drop_last() =~= lines.skip(1));
    }
    assert forall|i: int| 0 <= i < after.len() implies (#[trigger] after[i]).1 >= 1 by {
        if lines.len() > 0 && same_line(lines.last().0, event) {
            assert(lines[i].1 >= 1);
        } else if i < after.len() - 1 {
            if lines.len() < capacity {
                assert(after[i] == lines[i]);
            } else {
                assert(after[i] == lines[i + 1]);
            }
        }
    }
}

/// How many of a log's last lines were pushed or said again by several events: a line said again
/// counts as one, and evicted ones no longer do.
pub open spec fn touched(
    lines: Seq<(EventView, u32)>,
    capacity: nat,
    events: Seq<EventView>,
) -> nat
    decreases events.len(),
{
    if events.len() == 0 {
        0
    } else {
        let before = logged_all(lines, capacity, events.drop_last());
        let earlier = touched(lines, capacity, events.drop_last());
        if before.len() > 0 && same_line(before.last().0, events.last()) {
            if earlier == 0 {
                1
            } else {
                earlier
            }
        } else if earlier < capacity {
            earlier + 1
        } else {
            capacity
        }
    }
}

/// The texts of the lines of a log from `start` up to `end`, those that are shown.
pub open spec fn shown_entries(
    lines: Seq<(EventView, u32)>,
    verbose: bool,
    start: int,
    end: int,
) -> Seq<Seq<char>>
    decreases end - start,
{
    if end <= start {
        Seq::empty()
    } else {
        let before = shown_entries(lines, verbose, start, end - 1);
        if is_shown(lines[end - 1].0, verbose) {
            before.push(repeated_text(lines[end - 1]))
        } else {
            before
        }
    }
}

/// How often the last line of a log was said by several events.
pub open spec fn said_since(
    lines: Seq<(EventView, u32)>,
    capacity: nat,
    events: Seq<EventView>,
) -> nat
    decreases events.len(),
{
    if events.len() == 0 {
        0
    } else {
        let before = logged_all(lines, capacity, events.drop_last());
        if before.len() > 0 && same_line(before.last().0, events.last()) {
            said_since(lines, capacity, events.drop_last()) + 1
        } else {
            1
        }
    }
}

/// Whether no line is said more often by several events than a line can be counted.
pub open spec fn can_be_counted(
    lines: Seq<(EventView, u32)>,
    capacity: nat,
    events: Seq<EventView>,
) -> bool
    decreases events.len(),
{
    events.len() == 0 || (can_be_counted(lines, capacity, events.drop_last()) && said_since(
        lines,
        capacity,
        events,
    ) <= u32::MAX)
}

/// How many pushes the last `count` lines of a log stand for.
spec fn tail_pushes(lines: Seq<(EventView, u32)>, count: nat) -> nat
    decreases count,
{
    if count == 0 || lines.len() == 0 {
        0
    } else {
        lines.last().1 as nat + tail_pushes(lines.drop_last(), (count - 1) as nat)
    }
}

proof fn lemma_tail_grows(lines: Seq<(EventView, u32)>, fewer: nat, count: nat)
    requires
        fewer <= count,
    ensures
        tail_pushes(lines, fewer) <= tail_pushes(lines, count),
    decreases count,
{
    if fewer > 0 && lines.len() > 0 {
        lemma_tail_grows(lines.drop_last(), (fewer - 1) as nat, (count - 1) as nat);
    }
}

proof fn lemma_tail_skip(lines: Seq<(EventView, u32)>, count: nat)
    requires
        count < lines.len(),
    ensures
        tail_pushes(lines.skip(1), count) == tail_pushes(lines, count),
    decreases count,
{
    if count > 0 {
        lemma_tail_skip(lines.drop_last(), (count - 1) as nat);
        assert(lines.skip(1).drop_last() =~= lines.drop_last().skip(1));
    }
}

/// A line ends as many pushes before the last one as the lines behind it stand for.
proof fn lemma_tail_ends(lines: Seq<(EventView, u32)>, total: u64, count: nat)
    requires
        held_pushes(lines) <= total < u64::MAX,
        count <= lines.len(),
    ensures
        ends_at(lines, total, (lines.len() - count) as nat) == total - tail_pushes(lines, count),
{
    lemma_ends(lines, total, (lines.len() - count) as nat);
    lemma_tail_held(lines, count);
}

proof fn lemma_tail_held(lines: Seq<(EventView, u32)>, count: nat)
    requires
        held_pushes(lines) < u64::MAX,
        count <= lines.len(),
    ensures
        held_pushes(lines) == held_pushes(lines.take(lines.len() - count)) + tail_pushes(
            lines,
            count,
        ),
    decreases count,
{
    if count > 0 {
        lemma_tail_held(lines.drop_last(), (count - 1) as nat);
        assert(lines.drop_last().take(lines.len() - count) =~= lines.take(lines.len() - count));
    } else {
        assert(lines.take(lines.len() as int) =~= lines);
    }
}

/// What the lines stand for that several events pushed or said again: all of them at least as
/// many pushes as there were events, where nothing of theirs was evicted, and all but the first of
/// them fewer.
proof fn lemma_touched(
    lines: Seq<(EventView, u32)>,
    capacity: nat,
    total: u64,
    events: Seq<EventView>,
)
    requires
        accounted(lines, total),
        capacity > 0,
        lines.len() <= capacity,
        total + events.len() < u64::MAX,
        can_be_counted(lines, capacity, events),
    ensures
        ({
            let after = logged_all(lines, capacity, events);
            let new = touched(lines, capacity, events);
            let said = said_since(lines, capacity, events);
            &&& accounted(after, (total + events.len()) as u64)
            &&& after.len() <= capacity
            &&& new <= after.len()
            &&& events.len() > 0 ==> new > 0
            &&& events.len() == 0 ==> new == 0
            &&& new > 0 ==> tail_pushes(after, (new - 1) as nat) < events.len()
            &&& 0 < new < after.len() ==> tail_pushes(after, new) - after.last().1
                >= events.len() - said && after.last().1 >= said
        }),
    decreases events.len(),
{
    let after = logged_all(lines, capacity, events);
    let new = touched(lines, capacity, events);
    a_log_is_bounded(lines, capacity, events);
    if events.len() > 0 {
        let fewer = events.drop_last();
        let event = events.last();
        lemma_touched(lines, capacity, total, fewer);
        let before = logged_all(lines, capacity, fewer);
        let earlier = touched(lines, capacity, fewer);
        pushes_stay_accounted(before, capacity, (total + fewer.len()) as u64, event);
        if before.len() > 0 && same_line(before.last().0, event) {
            assert(after.drop_last() =~= before.drop_last());
        } else if before.len() < capacity {
            assert(after.drop_last() =~= before);
        } else {
            assert(after.drop_last() =~= before.skip(1));
            if earlier < before.len() {
                lemma_tail_skip(before, earlier);
            }
            if earlier > 0 {
                lemma_tail_skip(before, (earlier - 1) as nat);
            }
            if earlier > 1 {
                lemma_tail_skip(before, (earlier - 2) as nat);
                lemma_tail_grows(before, (earlier - 2) as nat, (earlier - 1) as nat);
            }
        }
    }
}

proof fn lemma_printed(
    lines: Seq<(EventView, u32)>,
    total: u64,
    cursor: u64,
    verbose: bool,
    new: nat,
    count: nat,
)
    requires
        accounted(lines, total),
        new <= lines.len(),
        count <= lines.len(),
        forall|i: nat|
            1 <= i <= lines.len() ==> (#[trigger] ends_at(lines, total, i) > cursor <==> i
                > lines.len() - new),
    ensures
        printed(lines, total, cursor, verbose, count) == (
            if count > lines.len() - new {
                ends_at(lines, total, count)
            } else {
                cursor
            },
            shown_entries(lines, verbose, lines.len() - new, count as int),
        ),
    decreases count,
{
    if count > 0 {
        let fewer = (count - 1) as nat;
        lemma_printed(lines, total, cursor, verbose, new, fewer);
        lemma_ends(lines, total, count);
        lemma_ends(lines, total, fewer);
        assert(lines.take(count as int).drop_last() =~= lines.take(fewer as int));
        assert(lines[count - 1].1 >= 1);
        lemma_held_increases(lines, count);
        assert(ends_at(lines, total, count) > ends_at(lines, total, fewer));
    }
}

/// However many events come between two calls, a call prints each line that was pushed or said
/// again since the one before it, once, oldest first, with how often it was said, and no other;
/// whatever was evicted meanwhile, whatever the stamps are, and whether or not a count is at its
/// largest. It has then come as far as the last push.
///
/// A line that is said more often between two calls than it can be counted is left out: there the
/// lines ahead of it can pass for new ones.
pub proof fn a_call_prints_what_is_new(
    lines: Seq<(EventView, u32)>,
    capacity: nat,
    total: u64,
    events: Seq<EventView>,
    verbose: bool,
)
    requires
        accounted(lines, total),
        capacity > 0,
        lines.len() <= capacity,
        total + events.len() < u64::MAX,
        can_be_counted(lines, capacity, events),
    ensures
        ({
            let after = logged_all(lines, capacity, events);
            let pushes = (total + events.len()) as u64;
            let new = touched(lines, capacity, events);
            &&& accounted(after, pushes)
            &&& after.len() <= capacity
            &&& new <= after.len()
            &&& printed(after, pushes, total, verbose, after.len()) == (
                pushes,
                shown_entries(after, verbose, after.len() - new, after.len() as int),
            )
        }),
{
    let after = logged_all(lines, capacity, events);
    let pushes = (total + events.len()) as u64;
    let new = touched(lines, capacity, events);
    lemma_touched(lines, capacity, total, events);
    assert forall|i: nat| 1 <= i <= after.len() implies (#[trigger] ends_at(after, pushes, i)
        > total <==> i > after.len() - new) by {
        let behind = (after.len() - i) as nat;
        lemma_tail_ends(after, pushes, behind);
        if i > after.len() - new {
            lemma_tail_grows(after, behind, (new - 1) as nat);
        } else {
            lemma_tail_grows(after, new, behind);
        }
    }
    lemma_tail_ends(after, pushes, 0);
    lemma_printed(after, pushes, total, verbose, new, after.len());
}

/// Every push is printed once: after a printer has come as far as the last push, one more event
/// prints exactly the line that now stands for it, whatever the ring has evicted, or nothing
/// where that line is not shown. The printer has then come as far as the last push again.
pub proof fn every_push_is_printed_once(
    lines: Seq<(EventView, u32)>,
    capacity: nat,
    total: u64,
    event: EventView,
    verbose: bool,
)
    requires
        accounted(lines, total),
        capacity > 0,
        lines.len() <= capacity,
        total + 1 < u64::MAX,
    ensures
        ({
            let after = logged(lines, capacity, event);
            printed(after, totalled_up(total), total, verbose, after.len()) == (
                (total + 1) as u64,
                if is_shown(after.last().0, verbose) {
                    seq![repeated_text(after.last())]
                } else {
                    Seq::empty()
                },
            )
        }),
{
    let events = seq![event];
    let after = logged(lines, capacity, event);
    assert(events.drop_last() =~= Seq::empty());
    reveal_with_fuel(logged_all, 2);
    reveal_with_fuel(touched, 2);
    reveal_with_fuel(said_since, 2);
    reveal_with_fuel(can_be_counted, 2);
    reveal_with_fuel(shown_entries, 2);
    a_call_prints_what_is_new(lines, capacity, total, events, verbose);
    assert(Seq::<Seq<char>>::empty().push(repeated_text(after.last())) =~= seq![
        repeated_text(after.last()),
    ]);
}

/// A log that is printed again and again: its lines, its pushes, how far the printer has come and
/// what the last call printed, after several rounds of events with a call behind each.
pub ghost struct Watch {
    pub lines: Seq<(EventView, u32)>,
    pub pushes: int,
    pub cursor: u64,
    pub printed: Seq<Seq<char>>,
}

/// What comes of several rounds of events with a call behind each, from an empty log and a printer
/// that has seen nothing.
pub open spec fn watched(capacity: nat, rounds: Seq<Seq<EventView>>, verbose: bool) -> Watch
    decreases rounds.len(),
{
    if rounds.len() == 0 {
        Watch { lines: Seq::empty(), pushes: 0, cursor: 0, printed: Seq::empty() }
    } else {
        let before = watched(capacity, rounds.drop_last(), verbose);
        let lines = logged_all(before.lines, capacity, rounds.last());
        let pushes = before.pushes + rounds.last().len();
        let call = printed(lines, pushes as u64, before.cursor, verbose, lines.len());
        Watch { lines, pushes, cursor: call.0, printed: call.1 }
    }
}

/// Whether in no round a line is said more often than it can be counted, nor more in all of them
/// than can be counted at all.
pub open spec fn rounds_can_be_counted(
    capacity: nat,
    rounds: Seq<Seq<EventView>>,
    verbose: bool,
) -> bool
    decreases rounds.len(),
{
    rounds.len() == 0 || ({
        let before = watched(capacity, rounds.drop_last(), verbose);
        &&& rounds_can_be_counted(capacity, rounds.drop_last(), verbose)
        &&& can_be_counted(before.lines, capacity, rounds.last())
        &&& before.pushes + rounds.last().len() < u64::MAX
    })
}

/// Over any number of calls with any number of events between them, each call prints what is new
/// since the one before it and nothing else, and has then seen every push.
pub proof fn every_call_prints_what_is_new(
    capacity: nat,
    rounds: Seq<Seq<EventView>>,
    verbose: bool,
)
    requires
        capacity > 0,
        rounds_can_be_counted(capacity, rounds, verbose),
    ensures
        ({
            let watch = watched(capacity, rounds, verbose);
            &&& 0 <= watch.pushes < u64::MAX
            &&& watch.cursor == watch.pushes
            &&& accounted(watch.lines, watch.cursor)
            &&& watch.lines.len() <= capacity
            &&& rounds.len() > 0 ==> ({
                let before = watched(capacity, rounds.drop_last(), verbose);
                let new = touched(before.lines, capacity, rounds.last());
                watch.printed == shown_entries(
                    watch.lines,
                    verbose,
                    watch.lines.len() - new,
                    watch.lines.len() as int,
                )
            })
        }),
    decreases rounds.len(),
{
    if rounds.len() > 0 {
        every_call_prints_what_is_new(capacity, rounds.drop_last(), verbose);
        let before = watched(capacity, rounds.drop_last(), verbose);
        a_call_prints_what_is_new(
            before.lines,
            capacity,
            before.cursor,
            rounds.last(),
            verbose,
        );
    }
}

} // verus!
