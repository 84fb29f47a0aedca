//! What acquisition promises between opening a source and giving it up.

use std::collections::VecDeque;

use vstd::prelude::*;

use crate::acquire::{stepped, Act, AcquisitionView, Errand, Happened, Outcome, Phase};
use crate::dispatch::{
    answered, offered, packets, ringed, Acquired, Answer, DispatchView, Step,
};
use crate::event::Severity;
use crate::link::ReadFailure;
use crate::packet::RawPacket;

verus! {

/// Whether acquisition gives up: it flushes a recording that is open, and is over where none is.
pub open spec fn gives_up(outcome: Outcome, recording: bool) -> bool {
    if recording {
        outcome.act is FlushRecorder && outcome.state.phase == Phase::Closing
    } else {
        outcome.act is End && outcome.state.phase == Phase::Ended
    }
}

/// Whether one line is said, of a severity, from the session, and what it says.
pub open spec fn says_one(outcome: Outcome, severity: Severity, source: Seq<char>, words: Seq<char>) -> bool {
    &&& outcome.lines.len() == 1
    &&& outcome.lines[0].severity == severity
    &&& outcome.lines[0].source == source
    &&& outcome.lines[0].message == words
}

/// A source that opens is said to be read, by what was really opened, and a recording is opened
/// behind it where one was asked for; one that does not open is an error that names what was
/// configured, and the end. A stop that came first is the end without a word.
pub proof fn opening_a_source(state: AcquisitionView, described: String, error: String)
    requires
        state.phase == Phase::Connecting,
    ensures
        ({
            let stopped = stepped(state, Happened::Connected { described, stopped: true });
            let open = stepped(state, Happened::Connected { described, stopped: false });
            let failed = stepped(state, Happened::ConnectFailed(error));
            &&& gives_up(stopped, state.recording)
            &&& stopped.lines.len() == 0
            &&& says_one(open, Severity::Info, "session"@, "reading "@ + described@)
            &&& open.state.described == described@
            &&& state.record is Some ==> open.act is OpenRecorder && open.state.phase
                == Phase::OpeningRecorder
            &&& state.record is None ==> open.act is CheckStop && open.state.phase == Phase::Ready
            &&& gives_up(failed, state.recording)
            &&& says_one(failed, Severity::Error, "session"@, state.spec + ": "@ + error@)
        }),
{
}

/// A recording that opens is said to, with its path, and from then on there is one; whether or not
/// it opens, what comes next is to read.
pub proof fn opening_a_recording(state: AcquisitionView, path: Seq<char>, error: String)
    requires
        state.phase == Phase::OpeningRecorder,
        state.record == Some(path),
    ensures
        ({
            let open = stepped(state, Happened::RecorderOpened(Ok(())));
            let failed = stepped(state, Happened::RecorderOpened(Err(error)));
            &&& open.state.recording
            &&& says_one(open, Severity::Info, "session"@, "recording to "@ + path)
            &&& open.act is CheckStop && open.state.phase == Phase::Ready
            &&& failed.state.recording == state.recording
            &&& says_one(failed, Severity::Error, "session"@, path + ": "@ + error@)
            &&& failed.act is CheckStop && failed.state.phase == Phase::Ready
        }),
{
}

/// Before each read the ring goes first: its oldest item is offered, and only where it is empty is
/// the source read. A stop ends the pass instead, without a word.
pub proof fn the_ring_goes_before_a_read(state: AcquisitionView)
    requires
        state.phase == Phase::Ready,
    ensures
        ({
            let stopped = stepped(state, Happened::StopFlag(true));
            let going = stepped(state, Happened::StopFlag(false));
            &&& gives_up(stopped, state.recording)
            &&& stopped.lines.len() == 0
            &&& going.lines.len() == 0
            &&& state.queue.ring.len() > 0 ==> going.act == Act::Offer(state.queue.ring[0])
                && going.state.queue.ring == state.queue.ring.skip(1) && going.state.phase
                == Phase::Offering(Errand::Flush)
            &&& state.queue.ring.len() == 0 ==> going.act == (Act::Read { backed_up: false })
                && going.state.phase == Phase::Reading
        }),
{
}

/// A read is told that something is backed up exactly where the ring holds something.
pub proof fn a_read_knows_whether_the_ring_is_empty(state: AcquisitionView, item: Acquired)
    requires
        state.phase == Phase::Offering(Errand::Flush),
        state.queue.offering_ring,
        state.queue.pending is None,
    ensures
        ({
            let full = stepped(state, Happened::Answered(Answer::Full(item)));
            &&& full.act == (Act::Read { backed_up: true })
            &&& full.state.queue.ring == seq![item] + state.queue.ring
            &&& full.state.phase == Phase::Reading
        }),
{
}

/// A chunk that was read forgives the failures before it, and goes to the recording where there is
/// one, straight on where there is none; no bytes are the end of the stream, whose framing is
/// flushed. Room on the decode side is another look at the ring, and a decode side that is gone the
/// end.
pub proof fn what_a_read_brings(state: AcquisitionView, count: usize)
    requires
        state.phase == Phase::Reading,
    ensures
        ({
            let read = stepped(state, Happened::Read(count));
            &&& count > 0 ==> read.state.failures == 0
            &&& count > 0 && state.recording ==> read.act is Record && read.state.phase
                == Phase::Recording
            &&& count > 0 && !state.recording ==> read.act is AskRestart && read.state.phase
                == Phase::AskingRestart
            &&& count == 0 ==> read.act is FlushAndLog && read.state.phase == Phase::Ending
                && read.state.failures == state.failures
            &&& read.lines.len() == 0
            &&& stepped(state, Happened::Room(true)).act is CheckStop
            &&& stepped(state, Happened::Room(true)).state.phase == Phase::Ready
            &&& gives_up(stepped(state, Happened::Room(false)), state.recording)
        }),
{
}

/// A read that fails is an error from the link in its own words. It is tried again where the
/// failure passes and is not the sixteenth in a row; otherwise the source is gone, which is a
/// second error, and the end.
pub proof fn a_failed_read(state: AcquisitionView, why: ReadFailure, message: String)
    requires
        state.phase == Phase::Reading,
        state.failures < u32::MAX,
    ensures
        ({
            let failed = stepped(state, Happened::ReadFailed(why, message));
            let again = why.worth_another_read() && state.failures + 1 < 16;
            &&& failed.state.failures == state.failures + 1
            &&& failed.lines.len() == (if again {
                1nat
            } else {
                2nat
            })
            &&& failed.lines[0].severity == Severity::Error
            &&& failed.lines[0].source == "link"@
            &&& failed.lines[0].message == message@
            &&& again ==> failed.act is CheckStop && failed.state.phase == Phase::Ready
            &&& !again ==> gives_up(failed, state.recording) && failed.lines[1].severity
                == Severity::Error && failed.lines[1].source == "session"@
        }),
{
}

/// What is recorded is looked at next for a restart, and a recording that fails is said to have
/// stopped, and is written to no more.
pub proof fn a_chunk_is_recorded(state: AcquisitionView, error: String)
    requires
        state.phase == Phase::Recording,
    ensures
        ({
            let done = stepped(state, Happened::Recorded(Ok(())));
            let failed = stepped(state, Happened::Recorded(Err(error)));
            &&& done.act is AskRestart && done.lines.len() == 0 && done.state.recording
                == state.recording
            &&& failed.act is AskRestart && !failed.state.recording
            &&& says_one(failed, Severity::Error, "session"@, "recording stopped: "@ + error@)
        }),
{
}

/// A stream that did not restart goes to the framing at once, and the packets dropped so far are
/// remembered; one that did has the restart handed over first, behind what is in the ring, and is
/// said to have restarted.
pub proof fn a_restart_is_asked_about(state: AcquisitionView)
    ensures
        state.phase == Phase::AskingRestart ==> ({
            let plain = stepped(state, Happened::RestartFlag(false));
            &&& plain.act is Push && plain.state.phase == Phase::Framing
            &&& plain.state.dropped_before == state.queue.dropped
            &&& plain.state.queue == state.queue
            &&& plain.lines.len() == 0
            &&& stepped(state, Happened::RestartFlag(true)).act is FlushLink
        }),
        state.phase == Phase::Restarting ==> ({
            let told = stepped(state, Happened::LinkFlushed);
            &&& told.lines.len() == 1 && told.lines[0].severity == Severity::Info
                && told.lines[0].source == "link"@
            &&& ahead(told) == state.queue.ring.push(Acquired::Restart) + wrapped(state.packets)
        }),
{
    if state.phase == Phase::Restarting {
        let told = stepped(state, Happened::LinkFlushed);
        assert(ahead(told) =~= state.queue.ring.push(Acquired::Restart) + wrapped(state.packets));
    }
}

/// Packets as the decode side gets them.
pub open spec fn wrapped(packets: Seq<RawPacket>) -> Seq<Acquired> {
    packets.map_values(|packet: RawPacket| Acquired::Packet(packet))
}

/// What is on its way to the decode side, in the order it is to arrive: what is being handed over,
/// the ring, what stands behind the ring, and the packets of the chunk.
pub open spec fn ahead(outcome: Outcome) -> Seq<Acquired> {
    let now = match outcome.act {
        Act::Offer(item) => seq![item],
        Act::Wait(item) => seq![item],
        _ => Seq::empty(),
    };
    let behind = match outcome.state.queue.pending {
        Some(item) => seq![item],
        None => Seq::empty(),
    };
    now + outcome.state.queue.ring + behind + wrapped(outcome.state.packets)
}

/// Everything but what is being handed over.
pub open spec fn still_to_come(state: AcquisitionView) -> Seq<Acquired> {
    let behind = match state.queue.pending {
        Some(item) => seq![item],
        None => Seq::empty(),
    };
    state.queue.ring + behind + wrapped(state.packets)
}

/// The packets of a chunk go to the decode side behind what is in the ring, in their order, none of
/// them left out and none twice.
pub proof fn a_chunk_is_handed_over(state: AcquisitionView, chunk: VecDeque<RawPacket>)
    requires
        state.phase == Phase::Framing,
        state.queue.pending is None,
    ensures
        chunk@.len() > 0 ==> ahead(stepped(state, Happened::Pushed(chunk))) == state.queue.ring
            + wrapped(chunk@),
        chunk@.len() == 0 ==> stepped(state, Happened::Pushed(chunk)).act is CheckStop && stepped(
            state,
            Happened::Pushed(chunk),
        ).state.queue == state.queue,
{
    let after = stepped(state, Happened::Pushed(chunk));
    if chunk@.len() > 0 {
        assert(wrapped(chunk@) =~= seq![Acquired::Packet(chunk@[0])] + wrapped(chunk@.skip(1)));
        assert(ahead(after) =~= state.queue.ring + wrapped(chunk@));
    }
}

/// An item that the decode side took is gone from what is on its way, and the rest stays in its
/// order.
pub proof fn what_is_taken_is_taken_once(state: AcquisitionView, errand: Errand)
    ensures
        state.phase == Phase::Offering(errand) ==> ahead(
            stepped(state, Happened::Answered(Answer::Sent)),
        ) == still_to_come(state),
        state.phase == Phase::Waiting(errand) && state.queue.pending is None ==> ahead(
            stepped(state, Happened::Waited(true)),
        ) == still_to_come(state),
{
    let left = wrapped(state.packets);
    if state.packets.len() > 0 {
        assert(left =~= seq![Acquired::Packet(state.packets[0])] + wrapped(state.packets.skip(1)));
    }
    if state.phase == Phase::Offering(errand) {
        assert(ahead(stepped(state, Happened::Answered(Answer::Sent))) =~= still_to_come(state));
    }
    if state.phase == Phase::Waiting(errand) && state.queue.pending is None {
        assert(ahead(stepped(state, Happened::Waited(true))) =~= still_to_come(state));
    }
}

/// A source that waits for room loses nothing: an item that the decode side has no room for waits,
/// and everything behind it keeps its order.
pub proof fn what_waits_is_not_lost(state: AcquisitionView, errand: Errand, item: Acquired)
    requires
        state.phase == Phase::Offering(errand),
        !state.queue.lossy,
        !state.queue.offering_ring,
    ensures
        ({
            let after = stepped(state, Happened::Answered(Answer::Full(item)));
            &&& after.act == Act::Wait(item)
            &&& after.state.phase == Phase::Waiting(errand)
            &&& ahead(after) == seq![item] + still_to_come(state)
        }),
{
    let after = stepped(state, Happened::Answered(Answer::Full(item)));
    assert(ahead(after) =~= seq![item] + still_to_come(state));
}

/// A chunk that cost packets is said to have, once, as a warning; one that did not says nothing.
/// Either way the next thing is to look at the ring again.
pub proof fn a_chunk_that_cost_packets_is_said_to(state: AcquisitionView)
    requires
        state.phase == Phase::Waiting(Errand::Packets),
        state.packets.len() == 0,
    ensures
        ({
            let after = stepped(state, Happened::Waited(true));
            &&& after.act is CheckStop && after.state.phase == Phase::Ready
            &&& state.queue.dropped > state.dropped_before ==> after.lines.len() == 1
                && after.lines[0].severity == Severity::Warning && after.lines[0].source
                == "session"@
            &&& state.queue.dropped <= state.dropped_before ==> after.lines.len() == 0
        }),
{
}

/// At the end of a stream what is left in the ring is handed over one by one, oldest first, for as
/// long as the decode side takes it; with the ring empty, or the decode side gone, acquisition gives
/// up.
pub proof fn a_stream_that_ended_is_drained(state: AcquisitionView)
    ensures
        state.phase == Phase::Ending ==> ({
            let ended = stepped(state, Happened::LinkFlushed);
            &&& ended.lines.len() == 1 && ended.lines[0].severity == Severity::Info
                && ended.lines[0].source == "session"@
            &&& state.queue.ring.len() > 0 ==> ended.act == Act::Wait(state.queue.ring[0])
                && ended.state.queue.ring == state.queue.ring.skip(1) && ended.state.phase
                == Phase::Draining
            &&& state.queue.ring.len() == 0 ==> gives_up(ended, state.recording)
        }),
        state.phase == Phase::Draining ==> ({
            let handed = stepped(state, Happened::Waited(true));
            &&& handed.lines.len() == 0
            &&& state.queue.ring.len() > 0 ==> handed.act == Act::Wait(state.queue.ring[0])
                && handed.state.queue.ring == state.queue.ring.skip(1) && handed.state.phase
                == Phase::Draining
            &&& state.queue.ring.len() == 0 ==> gives_up(handed, state.recording)
            &&& gives_up(stepped(state, Happened::Waited(false)), state.recording)
        }),
{
}

/// A recording that is flushed at the end is closed; where that fails it is said, in its words. Then
/// it is over.
pub proof fn a_recording_is_closed(state: AcquisitionView, error: String)
    requires
        state.phase == Phase::Closing,
    ensures
        ({
            let done = stepped(state, Happened::RecorderFlushed(Ok(())));
            let failed = stepped(state, Happened::RecorderFlushed(Err(error)));
            &&& done.act is End && done.state.phase == Phase::Ended && !done.state.recording
                && done.lines.len() == 0
            &&& failed.act is End && failed.state.phase == Phase::Ended && !failed.state.recording
            &&& says_one(failed, Severity::Error, "session"@, "recording: "@ + error@)
        }),
{
}

/// A ring takes an item behind the others while it has room. Where it has none, one packet goes for
/// it, the oldest, and is counted; where there is no packet to go, a packet that comes is the one,
/// and a marker is taken all the same. Nothing is lost without being counted.
pub proof fn a_ring_takes_what_it_can(dispatch: DispatchView, item: Acquired)
    requires
        dispatch.dropped < u64::MAX,
    ensures
        ({
            let after = ringed(dispatch, item);
            let come = if item is Packet {
                1int
            } else {
                0
            };
            &&& dispatch.ring.len() < dispatch.capacity ==> after.ring == dispatch.ring.push(item)
                && after.dropped == dispatch.dropped
            &&& packets(after.ring) + (after.dropped - dispatch.dropped) == packets(dispatch.ring)
                + come
            &&& dispatch.dropped <= after.dropped <= dispatch.dropped + 1
            &&& packets(dispatch.ring) == 0 && item is Packet && dispatch.ring.len()
                >= dispatch.capacity ==> after.ring == dispatch.ring && after.dropped
                == dispatch.dropped + 1
            &&& packets(dispatch.ring) == 0 && item is Restart ==> after.ring == dispatch.ring.push(
                item,
            ) && after.dropped == dispatch.dropped
            &&& packets(dispatch.ring) > 0 && dispatch.ring.len() >= dispatch.capacity
                ==> after.ring.len() == dispatch.ring.len() && after.ring.last() == item
                && after.dropped == dispatch.dropped + 1
            &&& after.capacity == dispatch.capacity && after.lossy == dispatch.lossy
                && after.pending == dispatch.pending && after.offering_ring
                == dispatch.offering_ring
        }),
{
    crate::dispatch::lemma_ringed_counts(dispatch, item);
}

/// What is handed over is always the oldest: the front of the ring where there is one, and only
/// then the item behind it. What the channel hands back goes where it came from.
pub proof fn the_oldest_is_offered_first(dispatch: DispatchView, item: Acquired)
    ensures
        ({
            let (after, step) = offered(dispatch);
            &&& dispatch.ring.len() > 0 ==> step == Step::Offer(dispatch.ring[0]) && after.ring
                == dispatch.ring.skip(1) && after.pending == dispatch.pending && after.offering_ring
            &&& dispatch.ring.len() == 0 && dispatch.pending is Some ==> step == Step::Offer(
                dispatch.pending->0,
            ) && after.pending is None && !after.offering_ring
            &&& dispatch.ring.len() == 0 && dispatch.pending is None ==> step is Done && after
                == dispatch
            &&& after.dropped == dispatch.dropped
        }),
        ({
            let (after, step) = answered(dispatch, Answer::Full(item));
            &&& dispatch.offering_ring && dispatch.pending is None ==> step is Done && after.ring
                == seq![item] + dispatch.ring && after.dropped == dispatch.dropped
            &&& !dispatch.offering_ring && !dispatch.lossy ==> step == Step::Wait(item) && after
                == dispatch
            &&& !dispatch.offering_ring && dispatch.lossy ==> step is Done && after == ringed(
                dispatch,
                item,
            )
            &&& dispatch.offering_ring && dispatch.pending is Some && dispatch.lossy ==> step is Done
                && after == ringed(
                DispatchView { ring: seq![item] + dispatch.ring, pending: None, ..dispatch },
                dispatch.pending->0,
            )
            &&& dispatch.offering_ring && dispatch.pending is Some && !dispatch.lossy ==> step
                == Step::Wait(dispatch.pending->0)
        }),
        ({
            let (after, step) = answered(dispatch, Answer::Closed);
            step is Gone && after.ring == dispatch.ring && after.pending is None
        }),
{
}

} // verus!
