//! The acquisition side of a session: what is done next, and what is said, for everything that
//! can happen between opening a source and giving it up.
//!
//! The bytes are read, recorded, taken apart and handed to the decode side by whoever runs this.
//! What is decided here is the order: a recording is written before the framing sees a byte, a
//! restart reaches the decode side before any packet behind it, and nothing but the source, the
//! decode side or the operator ends a pass.

use std::collections::VecDeque;

use vstd::prelude::*;
use vstd::string::*;

use crate::dispatch::{answered, offered, Acquired, Answer, Dispatch, DispatchView, Step};
use crate::event::{Event, Severity};
use crate::link::{is_transient, ReadFailure};
use crate::packet::RawPacket;
use crate::sequence::saturated_sum_u32;

verus! {

/// Consecutive failed reads tolerated before the source is called gone.
pub const READ_ERROR_LIMIT: u32 = 16;

/// What is being handed to the decode side.
#[derive(Clone, Copy, PartialEq, Eq, Debug, Structural)]
pub enum Errand {
    /// What the ring holds, before a read.
    Flush,
    /// The news that the stream restarted.
    Restart,
    /// The packets of a chunk.
    Packets,
}

/// How far acquisition is.
#[derive(Clone, Copy, PartialEq, Eq, Debug, Structural)]
pub enum Phase {
    /// The source is being opened.
    Connecting,
    /// The recording is being opened.
    OpeningRecorder,
    /// About to read, unless a stop was asked for.
    Ready,
    /// An item was offered to the decode side.
    Offering(Errand),
    /// An item waits for room on the decode side.
    Waiting(Errand),
    /// A read is under way.
    Reading,
    /// A chunk is being recorded.
    Recording,
    /// The source is asked whether it restarted.
    AskingRestart,
    /// The framing is being flushed at a restart.
    Restarting,
    /// A chunk is being taken apart.
    Framing,
    /// The framing is being flushed at the end of the stream.
    Ending,
    /// What is left in the ring is being handed over.
    Draining,
    /// The decode side is gone, and it is asked whether a stop was.
    Lost,
    /// The recording is being flushed.
    Closing,
    /// It is over.
    Ended,
}

/// What is to be done next.
#[derive(Debug)]
pub enum Act {
    /// Open the source, or give up where a stop is asked for first.
    Connect,
    /// Open the recording.
    OpenRecorder,
    /// See whether a stop was asked for.
    CheckStop,
    /// Offer an item to the decode side without waiting.
    Offer(Acquired),
    /// Hand an item to the decode side when there is room, or give up where a stop is asked for
    /// first.
    Wait(Acquired),
    /// Read a chunk; or stop where that is asked for first; or, where something is backed up,
    /// leave off as soon as the decode side has room.
    Read {
        /// Whether something is backed up.
        backed_up: bool,
    },
    /// Record the chunk.
    Record,
    /// See whether the source restarted.
    AskRestart,
    /// Flush the framing.
    FlushLink,
    /// Flush the framing, and log what it had to say.
    FlushAndLog,
    /// Take the chunk apart, flush the framing behind it where the source is one of datagrams,
    /// and log what it had to say.
    Push,
    /// Flush the recording.
    FlushRecorder,
    /// Nothing: it is over.
    End,
}

/// What came of it.
#[derive(Debug)]
pub enum Happened {
    /// A stop was asked for first.
    Stopped,
    /// The source is open.
    Connected {
        /// What was really opened.
        described: String,
        /// Whether a stop was asked for meanwhile.
        stopped: bool,
    },
    /// The source would not open.
    ConnectFailed(String),
    /// The recording is open, or would not.
    RecorderOpened(Result<(), String>),
    /// Whether a stop was asked for.
    StopFlag(bool),
    /// What the channel to the decode side said.
    Answered(Answer),
    /// Whether the item that waited was handed over.
    Waited(bool),
    /// The decode side has room; or, where not, is gone.
    Room(bool),
    /// So many bytes were read; none where the stream ended.
    Read(usize),
    /// The read failed.
    ReadFailed(ReadFailure, String),
    /// The chunk was recorded, or would not be.
    Recorded(Result<(), String>),
    /// Whether the source restarted.
    RestartFlag(bool),
    /// The framing was flushed.
    LinkFlushed,
    /// The packets of the chunk.
    Pushed(VecDeque<RawPacket>),
    /// The recording was flushed, or would not be.
    RecorderFlushed(Result<(), String>),
}

/// One line for the log.
#[verifier::ext_equal]
pub struct Line {
    pub severity: Severity,
    pub source: Seq<char>,
    pub message: Seq<char>,
}

/// An informational line.
pub open spec fn info(source: Seq<char>, message: Seq<char>) -> Line {
    Line { severity: Severity::Info, source, message }
}

/// A line about a failure.
pub open spec fn failure(source: Seq<char>, message: Seq<char>) -> Line {
    Line { severity: Severity::Error, source, message }
}

/// Whether events say what lines say.
pub open spec fn says(events: Seq<Event>, lines: Seq<Line>) -> bool {
    &&& events.len() == lines.len()
    &&& forall|i: int|
        0 <= i < events.len() ==> {
            &&& (#[trigger] events[i]).severity == lines[i].severity
            &&& events[i].source@ == lines[i].source
            &&& events[i].message@ == lines[i].message
        }
}

/// What is said when a source ends.
pub const SOURCE_ENDED: &'static str = "the source ended";

/// What is said of a source that does not come back.
pub const SOURCE_GONE: &'static str = "the source is gone; the session has stopped";

/// What is said when the stream starts again.
pub const STREAM_RESTARTED: &'static str = "the stream restarted";

/// What is said when a session was closed.
pub const SESSION_CLOSED: &'static str = "the session was closed";

/// What is said when the decode side ended on its own.
pub const DECODER_GONE: &'static str =
    "the decode thread is gone; acquisition has stopped. Nothing below the decoder failed — the counters up to `packets_in` are the last ones that mean anything for this pass";

/// What is said when packets are dropped.
pub const DECODER_BEHIND: &'static str =
    "the decoder is behind; the oldest queued packets are being dropped";

/// What acquisition knows.
#[derive(Debug)]
pub struct Acquisition {
    spec: String,
    described: String,
    record: Option<String>,
    recording: bool,
    failures: u32,
    packets: VecDeque<RawPacket>,
    dropped_before: u64,
    queue: Dispatch,
    phase: Phase,
}

/// What acquisition knows, to a caller.
#[verifier::ext_equal]
pub struct AcquisitionView {
    /// What was configured to be read.
    pub spec: Seq<char>,
    /// What is really being read.
    pub described: Seq<char>,
    /// Where to record, if anywhere.
    pub record: Option<Seq<char>>,
    /// Whether a recording is open.
    pub recording: bool,
    /// Reads that failed since one that did not.
    pub failures: u32,
    /// Packets of the chunk not yet handed over.
    pub packets: Seq<RawPacket>,
    /// Packets dropped before the chunk.
    pub dropped_before: u64,
    /// The queue to the decode side.
    pub queue: DispatchView,
    /// How far it is.
    pub phase: Phase,
}

impl View for Acquisition {
    type V = AcquisitionView;

    closed spec fn view(&self) -> AcquisitionView {
        AcquisitionView {
            spec: self.spec@,
            described: self.described@,
            record: match self.record {
                Some(path) => Some(path@),
                None => None,
            },
            recording: self.recording,
            failures: self.failures,
            packets: self.packets@,
            dropped_before: self.dropped_before,
            queue: self.queue@,
            phase: self.phase,
        }
    }
}

/// What a step comes to: the state behind it, what to do next and what to say.
#[verifier::ext_equal]
pub struct Outcome {
    pub state: AcquisitionView,
    pub act: Act,
    pub lines: Seq<Line>,
}

/// The same, with a line in front of what is said.
pub open spec fn saying(line: Line, outcome: Outcome) -> Outcome {
    Outcome { lines: seq![line] + outcome.lines, ..outcome }
}

/// Going on in a phase, with something to do.
pub open spec fn going_on(state: AcquisitionView, phase: Phase, act: Act) -> Outcome {
    Outcome { state: AcquisitionView { phase, ..state }, act, lines: Seq::empty() }
}

/// About to read.
pub open spec fn ready(state: AcquisitionView) -> Outcome {
    going_on(state, Phase::Ready, Act::CheckStop)
}

/// Giving up: a recording that is open is flushed first.
pub open spec fn closing(state: AcquisitionView) -> Outcome {
    if state.recording {
        going_on(state, Phase::Closing, Act::FlushRecorder)
    } else {
        going_on(state, Phase::Ended, Act::End)
    }
}

/// The chunk goes through the framing.
pub open spec fn framing(state: AcquisitionView) -> Outcome {
    going_on(
        AcquisitionView { dropped_before: state.queue.dropped, ..state },
        Phase::Framing,
        Act::Push,
    )
}

/// The chunk is done: packets that were dropped on the way are worth a line.
pub open spec fn chunk_done(state: AcquisitionView) -> Outcome {
    if state.queue.dropped > state.dropped_before {
        saying(
            Line {
                severity: Severity::Warning,
                source: "session"@,
                message: DECODER_BEHIND@,
            },
            ready(state),
        )
    } else {
        ready(state)
    }
}

/// An item is handed to the decode side, behind what waits in front of it.
pub open spec fn sent(state: AcquisitionView, item: Acquired, errand: Errand) -> Outcome {
    let (queue, step) = offered(DispatchView { pending: Some(item), ..state.queue });
    going_on(
        AcquisitionView { queue, ..state },
        Phase::Offering(errand),
        Act::Offer(step->Offer_0),
    )
}

/// The next packet of the chunk, or the end of it.
pub open spec fn next_packet(state: AcquisitionView) -> Outcome {
    if state.packets.len() == 0 {
        chunk_done(state)
    } else {
        sent(
            AcquisitionView { packets: state.packets.skip(1), ..state },
            Acquired::Packet(state.packets[0]),
            Errand::Packets,
        )
    }
}

/// What follows what the queue said.
pub open spec fn proceeded(state: AcquisitionView, step: Step, errand: Errand) -> Outcome {
    match step {
        Step::Offer(item) => going_on(state, Phase::Offering(errand), Act::Offer(item)),
        Step::Wait(item) => going_on(state, Phase::Waiting(errand), Act::Wait(item)),
        Step::Gone => going_on(state, Phase::Lost, Act::CheckStop),
        Step::Done => match errand {
            Errand::Flush => going_on(
                state,
                Phase::Reading,
                Act::Read { backed_up: state.queue.ring.len() > 0 },
            ),
            Errand::Restart => framing(state),
            Errand::Packets => next_packet(state),
        },
    }
}

/// What is left in the ring goes to the decode side, one after the other.
pub open spec fn draining(state: AcquisitionView) -> Outcome {
    if state.queue.ring.len() > 0 {
        going_on(
            AcquisitionView {
                queue: DispatchView { ring: state.queue.ring.skip(1), ..state.queue },
                ..state
            },
            Phase::Draining,
            Act::Wait(state.queue.ring[0]),
        )
    } else {
        closing(state)
    }
}

/// What follows a read that failed: another, unless the failure is final or the last of too
/// many.
pub open spec fn read_failed(
    state: AcquisitionView,
    why: ReadFailure,
    message: Seq<char>,
) -> Outcome {
    let failures = saturated_sum_u32(state.failures, 1);
    let counted = AcquisitionView { failures, ..state };
    saying(
        failure("link"@, message),
        if !why.worth_another_read() || failures >= 16 {
            saying(failure("session"@, SOURCE_GONE@), closing(counted))
        } else {
            ready(counted)
        },
    )
}

/// What follows everything that can happen. What does not belong to the phase is the end.
pub open spec fn stepped(state: AcquisitionView, happened: Happened) -> Outcome {
    match (state.phase, happened) {
        (Phase::Connecting, Happened::Connected { described, stopped }) => if stopped {
            closing(state)
        } else {
            let open = AcquisitionView { described: described@, ..state };
            saying(
                info("session"@, "reading "@ + described@),
                if state.record is Some {
                    going_on(open, Phase::OpeningRecorder, Act::OpenRecorder)
                } else {
                    ready(open)
                },
            )
        },
        (Phase::Connecting, Happened::ConnectFailed(error)) => saying(
            failure("session"@, state.spec + ": "@ + error@),
            closing(state),
        ),
        (Phase::OpeningRecorder, Happened::RecorderOpened(outcome)) => match (
            outcome,
            state.record,
        ) {
            (Ok(_), Some(path)) => saying(
                info("session"@, "recording to "@ + path),
                ready(AcquisitionView { recording: true, ..state }),
            ),
            (Err(error), Some(path)) => saying(
                failure("session"@, path + ": "@ + error@),
                ready(state),
            ),
            (_, None) => closing(state),
        },
        (Phase::Ready, Happened::StopFlag(stopped)) => if stopped {
            closing(state)
        } else {
            let (queue, step) = offered(DispatchView { pending: None, ..state.queue });
            proceeded(AcquisitionView { queue, ..state }, step, Errand::Flush)
        },
        (Phase::Offering(errand), Happened::Answered(answer)) => {
            let (queue, step) = answered(state.queue, answer);
            proceeded(AcquisitionView { queue, ..state }, step, errand)
        },
        (Phase::Waiting(errand), Happened::Waited(handed)) => proceeded(
            state,
            if handed {
                Step::Done
            } else {
                Step::Gone
            },
            errand,
        ),
        (Phase::Reading, Happened::Room(room)) => if room {
            ready(state)
        } else {
            closing(state)
        },
        (Phase::Reading, Happened::Read(count)) => if count == 0 {
            going_on(state, Phase::Ending, Act::FlushAndLog)
        } else {
            let forgiven = AcquisitionView { failures: 0, ..state };
            if state.recording {
                going_on(forgiven, Phase::Recording, Act::Record)
            } else {
                going_on(forgiven, Phase::AskingRestart, Act::AskRestart)
            }
        },
        (Phase::Reading, Happened::ReadFailed(why, message)) => read_failed(state, why, message@),
        (Phase::Recording, Happened::Recorded(outcome)) => match outcome {
            Ok(_) => going_on(state, Phase::AskingRestart, Act::AskRestart),
            Err(error) => saying(
                failure("session"@, "recording stopped: "@ + error@),
                going_on(
                    AcquisitionView { recording: false, ..state },
                    Phase::AskingRestart,
                    Act::AskRestart,
                ),
            ),
        },
        (Phase::AskingRestart, Happened::RestartFlag(restarted)) => if restarted {
            going_on(state, Phase::Restarting, Act::FlushLink)
        } else {
            framing(state)
        },
        (Phase::Restarting, Happened::LinkFlushed) => saying(
            info("link"@, STREAM_RESTARTED@),
            sent(state, Acquired::Restart, Errand::Restart),
        ),
        (Phase::Framing, Happened::Pushed(packets)) => next_packet(
            AcquisitionView { packets: packets@, ..state },
        ),
        (Phase::Ending, Happened::LinkFlushed) => saying(
            info("session"@, SOURCE_ENDED@),
            draining(state),
        ),
        (Phase::Draining, Happened::Waited(handed)) => if handed {
            draining(state)
        } else {
            closing(state)
        },
        (Phase::Lost, Happened::StopFlag(stopped)) => saying(
            if stopped {
                info("session"@, SESSION_CLOSED@)
            } else {
                failure("session"@, DECODER_GONE@)
            },
            closing(state),
        ),
        (Phase::Closing, Happened::RecorderFlushed(outcome)) => {
            let over = going_on(
                AcquisitionView { recording: false, ..state },
                Phase::Ended,
                Act::End,
            );
            match outcome {
                Ok(_) => over,
                Err(error) => saying(failure("session"@, "recording: "@ + error@), over),
            }
        },
        (Phase::Closing, _) | (Phase::Ended, _) => going_on(state, Phase::Ended, Act::End),
        _ => closing(state),
    }
}

/// What is to be done next, and what is to be logged before it.
#[derive(Debug)]
pub struct Todo {
    pub act: Act,
    pub log: Vec<Event>,
}

fn quiet(act: Act) -> (r: Todo)
    ensures
        r.act == act,
        says(r.log@, Seq::empty()),
{
    Todo { act, log: Vec::new() }
}

/// Puts a line in front of what is logged.
fn said(event: Event, todo: Todo, Ghost(line): Ghost<Line>, Ghost(lines): Ghost<Seq<Line>>) -> (r:
    Todo)
    requires
        says(seq![event], seq![line]),
        says(todo.log@, lines),
    ensures
        r.act == todo.act,
        says(r.log@, seq![line] + lines),
{
    let mut log: Vec<Event> = todo.log;
    let ghost later = log@;
    log.insert(0, event);
    proof {
        let all = seq![line] + lines;
        assert(log@ =~= seq![event] + later);
        assert forall|i: int| 0 <= i < log@.len() implies {
            &&& (#[trigger] log@[i]).severity == all[i].severity
            &&& log@[i].source@ == all[i].source
            &&& log@[i].message@ == all[i].message
        } by {
            if i == 0 {
                assert(seq![event][0] == event);
            } else {
                assert(later[i - 1] == log@[i]);
            }
        }
    }
    Todo { act: todo.act, log }
}

/// Whether what is to be done, and the state behind it, are those of an outcome.
pub open spec fn is_outcome(outcome: Outcome, state: AcquisitionView, todo: Todo) -> bool {
    &&& state == outcome.state
    &&& todo.act == outcome.act
    &&& says(todo.log@, outcome.lines)
}

/// One text behind another.
fn joined(first: &str, second: &str) -> (r: String)
    ensures
        r@ == first@ + second@,
{
    let mut out: String = first.to_owned();
    out.append(second);
    out
}

impl Acquisition {
    /// Acquisition of a source, with nothing open yet. What is to be done first is to open it.
    pub fn new(spec: String, record: Option<String>, queue: Dispatch) -> (r: Self)
        ensures
            r@ == (AcquisitionView {
                spec: spec@,
                described: spec@,
                record: match record {
                    Some(path) => Some(path@),
                    None => None,
                },
                recording: false,
                failures: 0,
                packets: Seq::empty(),
                dropped_before: 0,
                queue: queue@,
                phase: Phase::Connecting,
            }),
    {
        let described = spec.clone();
        Acquisition {
            spec,
            described,
            record,
            recording: false,
            failures: 0,
            packets: VecDeque::new(),
            dropped_before: 0,
            queue,
            phase: Phase::Connecting,
        }
    }

    /// What is really being read: what was configured, until the source is open.
    pub fn described(&self) -> (r: &str)
        ensures
            r@ == self@.described,
    {
        self.described.as_str()
    }

    /// Where to record, if anywhere.
    pub fn record(&self) -> (r: Option<&str>)
        ensures
            match r {
                Some(path) => self@.record == Some(path@),
                None => self@.record is None,
            },
    {
        match &self.record {
            Some(path) => Some(path.as_str()),
            None => None,
        }
    }

    /// Whether a recording is open.
    pub fn is_recording(&self) -> (r: bool)
        ensures
            r == self@.recording,
    {
        self.recording
    }

    /// How many packets have been dropped for want of room.
    pub fn dropped(&self) -> (r: u64)
        ensures
            r == self@.queue.dropped,
    {
        self.queue.dropped()
    }

    fn go_on(&mut self, phase: Phase, act: Act) -> (r: Todo)
        ensures
            is_outcome(going_on(old(self)@, phase, act), final(self)@, r),
    {
        self.phase = phase;
        quiet(act)
    }

    fn close(&mut self) -> (r: Todo)
        ensures
            is_outcome(closing(old(self)@), final(self)@, r),
    {
        if self.recording {
            self.go_on(Phase::Closing, Act::FlushRecorder)
        } else {
            self.go_on(Phase::Ended, Act::End)
        }
    }

    fn frame(&mut self) -> (r: Todo)
        ensures
            is_outcome(framing(old(self)@), final(self)@, r),
    {
        self.dropped_before = self.queue.dropped();
        self.go_on(Phase::Framing, Act::Push)
    }

    fn send(&mut self, item: Acquired, errand: Errand) -> (r: Todo)
        ensures
            is_outcome(sent(old(self)@, item, errand), final(self)@, r),
    {
        match self.queue.send(item) {
            Step::Offer(item) => self.go_on(Phase::Offering(errand), Act::Offer(item)),
            Step::Wait(_) | Step::Done | Step::Gone => {
                assert(false);
                quiet(Act::End)
            },
        }
    }

    fn send_next(&mut self) -> (r: Todo)
        ensures
            is_outcome(next_packet(old(self)@), final(self)@, r),
    {
        match self.packets.pop_front() {
            Some(packet) => {
                assert(self.packets@ =~= old(self)@.packets.skip(1));
                self.send(Acquired::Packet(packet), Errand::Packets)
            },
            None => {
                let behind = self.queue.dropped() > self.dropped_before;
                let todo = self.go_on(Phase::Ready, Act::CheckStop);
                if behind {
                    said(
                        Event::warning("session", DECODER_BEHIND.to_owned()),
                        todo,
                        Ghost(
                            Line {
                                severity: Severity::Warning,
                                source: "session"@,
                                message: DECODER_BEHIND@,
                            },
                        ),
                        Ghost(Seq::empty()),
                    )
                } else {
                    todo
                }
            },
        }
    }

    fn proceed(&mut self, step: Step, errand: Errand) -> (r: Todo)
        ensures
            is_outcome(proceeded(old(self)@, step, errand), final(self)@, r),
    {
        match step {
            Step::Offer(item) => self.go_on(Phase::Offering(errand), Act::Offer(item)),
            Step::Wait(item) => self.go_on(Phase::Waiting(errand), Act::Wait(item)),
            Step::Gone => self.go_on(Phase::Lost, Act::CheckStop),
            Step::Done => match errand {
                Errand::Flush => {
                    let backed_up = self.queue.is_backed_up();
                    self.go_on(Phase::Reading, Act::Read { backed_up })
                },
                Errand::Restart => self.frame(),
                Errand::Packets => self.send_next(),
            },
        }
    }

    fn drain(&mut self) -> (r: Todo)
        ensures
            is_outcome(draining(old(self)@), final(self)@, r),
    {
        match self.queue.drain() {
            Some(item) => self.go_on(Phase::Draining, Act::Wait(item)),
            None => self.close(),
        }
    }

    fn fail_read(&mut self, why: ReadFailure, message: String) -> (r: Todo)
        ensures
            is_outcome(read_failed(old(self)@, why, message@), final(self)@, r),
    {
        self.failures = self.failures.saturating_add(1);
        let ghost counted = self@;
        let ghost line = failure("link"@, message@);
        if !is_transient(why) || self.failures >= READ_ERROR_LIMIT {
            let todo = self.close();
            let gone = said(
                Event::error("session", SOURCE_GONE.to_owned()),
                todo,
                Ghost(failure("session"@, SOURCE_GONE@)),
                Ghost(Seq::empty()),
            );
            said(
                Event::error("link", message),
                gone,
                Ghost(line),
                Ghost(seq![failure("session"@, SOURCE_GONE@)] + Seq::<Line>::empty()),
            )
        } else {
            let todo = self.go_on(Phase::Ready, Act::CheckStop);
            said(Event::error("link", message), todo, Ghost(line), Ghost(Seq::empty()))
        }
    }

    fn connected(&mut self, described: String) -> (r: Todo)
        requires
            old(self)@.phase == Phase::Connecting,
        ensures
            is_outcome(
                stepped(old(self)@, Happened::Connected { described, stopped: false }),
                final(self)@,
                r,
            ),
    {
        let message = joined("reading ", described.as_str());
        let ghost line = info("session"@, "reading "@ + described@);
        self.described = described;
        let todo = if self.record.is_some() {
            self.go_on(Phase::OpeningRecorder, Act::OpenRecorder)
        } else {
            self.go_on(Phase::Ready, Act::CheckStop)
        };
        said(Event::info("session", message), todo, Ghost(line), Ghost(Seq::empty()))
    }

    fn recorder_opened(&mut self, outcome: Result<(), String>) -> (r: Todo)
        requires
            old(self)@.phase == Phase::OpeningRecorder,
        ensures
            is_outcome(
                stepped(old(self)@, Happened::RecorderOpened(outcome)),
                final(self)@,
                r,
            ),
    {
        let path: String = match &self.record {
            Some(path) => path.clone(),
            None => return self.close(),
        };
        match outcome {
            Ok(_) => {
                self.recording = true;
                let todo = self.go_on(Phase::Ready, Act::CheckStop);
                said(
                    Event::info("session", joined("recording to ", path.as_str())),
                    todo,
                    Ghost(info("session"@, "recording to "@ + path@)),
                    Ghost(Seq::empty()),
                )
            },
            Err(error) => {
                let mut message: String = path;
                message.append(": ");
                message.append(error.as_str());
                let ghost line = failure("session"@, message@);
                let todo = self.go_on(Phase::Ready, Act::CheckStop);
                said(Event::error("session", message), todo, Ghost(line), Ghost(Seq::empty()))
            },
        }
    }

    fn recorded(&mut self, outcome: Result<(), String>) -> (r: Todo)
        requires
            old(self)@.phase == Phase::Recording,
        ensures
            is_outcome(stepped(old(self)@, Happened::Recorded(outcome)), final(self)@, r),
    {
        match outcome {
            Ok(_) => self.go_on(Phase::AskingRestart, Act::AskRestart),
            Err(error) => {
                self.recording = false;
                let todo = self.go_on(Phase::AskingRestart, Act::AskRestart);
                said(
                    Event::error("session", joined("recording stopped: ", error.as_str())),
                    todo,
                    Ghost(failure("session"@, "recording stopped: "@ + error@)),
                    Ghost(Seq::empty()),
                )
            },
        }
    }

    fn lost(&mut self, stopped: bool) -> (r: Todo)
        requires
            old(self)@.phase == Phase::Lost,
        ensures
            is_outcome(stepped(old(self)@, Happened::StopFlag(stopped)), final(self)@, r),
    {
        let todo = self.close();
        if stopped {
            said(
                Event::info("session", SESSION_CLOSED.to_owned()),
                todo,
                Ghost(info("session"@, SESSION_CLOSED@)),
                Ghost(Seq::empty()),
            )
        } else {
            said(
                Event::error("session", DECODER_GONE.to_owned()),
                todo,
                Ghost(failure("session"@, DECODER_GONE@)),
                Ghost(Seq::empty()),
            )
        }
    }

    fn recorder_flushed(&mut self, outcome: Result<(), String>) -> (r: Todo)
        requires
            old(self)@.phase == Phase::Closing,
        ensures
            is_outcome(
                stepped(old(self)@, Happened::RecorderFlushed(outcome)),
                final(self)@,
                r,
            ),
    {
        self.recording = false;
        let todo = self.go_on(Phase::Ended, Act::End);
        match outcome {
            Ok(_) => todo,
            Err(error) => said(
                Event::error("session", joined("recording: ", error.as_str())),
                todo,
                Ghost(failure("session"@, "recording: "@ + error@)),
                Ghost(Seq::empty()),
            ),
        }
    }

    fn connect_failed(&mut self, error: String) -> (r: Todo)
        requires
            old(self)@.phase == Phase::Connecting,
        ensures
            is_outcome(stepped(old(self)@, Happened::ConnectFailed(error)), final(self)@, r),
    {
        let mut message: String = self.spec.clone();
        message.append(": ");
        message.append(error.as_str());
        let ghost line = failure("session"@, message@);
        let todo = self.close();
        said(Event::error("session", message), todo, Ghost(line), Ghost(Seq::empty()))
    }

    fn source_ended(&mut self) -> (r: Todo)
        requires
            old(self)@.phase == Phase::Ending,
        ensures
            is_outcome(stepped(old(self)@, Happened::LinkFlushed), final(self)@, r),
    {
        let todo = self.drain();
        said(
            Event::info("session", SOURCE_ENDED.to_owned()),
            todo,
            Ghost(info("session"@, SOURCE_ENDED@)),
            Ghost(Seq::empty()),
        )
    }

    fn restart(&mut self) -> (r: Todo)
        requires
            old(self)@.phase == Phase::Restarting,
        ensures
            is_outcome(stepped(old(self)@, Happened::LinkFlushed), final(self)@, r),
    {
        let todo = self.send(Acquired::Restart, Errand::Restart);
        said(
            Event::info("link", STREAM_RESTARTED.to_owned()),
            todo,
            Ghost(info("link"@, STREAM_RESTARTED@)),
            Ghost(Seq::empty()),
        )
    }

    /// What follows what happened: the next thing to do, and what to log before it.
    pub fn step(&mut self, happened: Happened) -> (r: Todo)
        ensures
            is_outcome(stepped(old(self)@, happened), final(self)@, r),
    {
        match (self.phase, happened) {
            (Phase::Connecting, Happened::Connected { described, stopped }) => if stopped {
                self.close()
            } else {
                self.connected(described)
            },
            (Phase::Connecting, Happened::ConnectFailed(error)) => self.connect_failed(error),
            (Phase::OpeningRecorder, Happened::RecorderOpened(outcome)) => self.recorder_opened(
                outcome,
            ),
            (Phase::Ready, Happened::StopFlag(stopped)) => if stopped {
                self.close()
            } else {
                let step = self.queue.flush();
                self.proceed(step, Errand::Flush)
            },
            (Phase::Offering(errand), Happened::Answered(answer)) => {
                let step = self.queue.answer(answer);
                self.proceed(step, errand)
            },
            (Phase::Waiting(errand), Happened::Waited(handed)) => if handed {
                self.proceed(Step::Done, errand)
            } else {
                self.proceed(Step::Gone, errand)
            },
            (Phase::Reading, Happened::Room(room)) => if room {
                self.go_on(Phase::Ready, Act::CheckStop)
            } else {
                self.close()
            },
            (Phase::Reading, Happened::Read(count)) => if count == 0 {
                self.go_on(Phase::Ending, Act::FlushAndLog)
            } else {
                self.failures = 0;
                if self.recording {
                    self.go_on(Phase::Recording, Act::Record)
                } else {
                    self.go_on(Phase::AskingRestart, Act::AskRestart)
                }
            },
            (Phase::Reading, Happened::ReadFailed(why, message)) => self.fail_read(why, message),
            (Phase::Recording, Happened::Recorded(outcome)) => self.recorded(outcome),
            (Phase::AskingRestart, Happened::RestartFlag(restarted)) => if restarted {
                self.go_on(Phase::Restarting, Act::FlushLink)
            } else {
                self.frame()
            },
            (Phase::Restarting, Happened::LinkFlushed) => self.restart(),
            (Phase::Framing, Happened::Pushed(packets)) => {
                self.packets = packets;
                self.send_next()
            },
            (Phase::Ending, Happened::LinkFlushed) => self.source_ended(),
            (Phase::Draining, Happened::Waited(handed)) => if handed {
                self.drain()
            } else {
                self.close()
            },
            (Phase::Lost, Happened::StopFlag(stopped)) => self.lost(stopped),
            (Phase::Closing, Happened::RecorderFlushed(outcome)) => self.recorder_flushed(outcome),
            (Phase::Closing, _) | (Phase::Ended, _) => self.go_on(Phase::Ended, Act::End),
            _ => self.close(),
        }
    }
}

/// A read that fails for a passing reason is tried again, unless it is the sixteenth in a row;
/// one that fails for good is not; and a read that succeeds starts the count over.
pub proof fn a_source_gets_sixteen_chances(state: AcquisitionView, why: ReadFailure, message: String)
    requires
        state.phase == Phase::Reading,
        state.failures < 16,
    ensures
        stepped(state, Happened::ReadFailed(why, message)).act is CheckStop <==> (
        why.worth_another_read() && state.failures + 1 < 16),
        stepped(state, Happened::ReadFailed(why, message)).act is CheckStop ==> stepped(
            state,
            Happened::ReadFailed(why, message),
        ).state == (AcquisitionView {
            failures: (state.failures + 1) as u32,
            phase: Phase::Ready,
            ..state
        }),
        forall|count: usize| #[trigger]
            stepped(state, Happened::Read(count)).state.failures == (if count > 0 {
                0
            } else {
                state.failures
            }),
{
}

/// What is read is recorded before it is taken apart: where a recording is open, a chunk is
/// recorded next; the source is asked about a restart only behind that; and only behind that
/// does the framing see a byte.
pub proof fn bytes_are_recorded_before_they_are_framed(state: AcquisitionView, happened: Happened)
    ensures
        state.phase == Phase::Reading && state.recording && happened is Read
            && happened->Read_0 > 0 ==> stepped(state, happened).act is Record,
        stepped(state, happened).act is AskRestart ==> state.phase == Phase::Recording || (
        state.phase == Phase::Reading && !state.recording),
        stepped(state, happened).act is Push ==> state.phase == Phase::AskingRestart
            || state.phase == Phase::Offering(Errand::Restart) || state.phase == Phase::Waiting(
            Errand::Restart,
        ),
{
}

/// A stream that restarted has its restart handed over before any packet behind it: the framing
/// is flushed first, the decode side is told next, and the chunk is taken apart only when the
/// decode side has been told or the news is in its queue.
pub proof fn a_restart_precedes_its_packets(state: AcquisitionView, happened: Happened)
    ensures
        state.phase == Phase::AskingRestart && happened == Happened::RestartFlag(true) ==> stepped(
            state,
            happened,
        ).act is FlushLink && stepped(state, happened).state.phase == Phase::Restarting,
        state.phase == Phase::Restarting && happened is LinkFlushed ==> stepped(state, happened).act
            is Offer && stepped(state, happened).state.phase == Phase::Offering(Errand::Restart)
            && (state.queue.ring.len() == 0 ==> stepped(state, happened).act == Act::Offer(
            Acquired::Restart,
        )) && (state.queue.ring.len() > 0 ==> stepped(state, happened).state.queue.pending == Some(
            Acquired::Restart,
        )),
        state.phase == Phase::Restarting ==> !(stepped(state, happened).act is Push),
{
}

/// A recording that will not open or will not be written is said to be lost, and the pass goes
/// on without it.
pub proof fn a_failed_recording_does_not_end_the_pass(
    state: AcquisitionView,
    path: Seq<char>,
    error: String,
)
    requires
        state.record == Some(path),
    ensures
        state.phase == Phase::OpeningRecorder ==> stepped(
            state,
            Happened::RecorderOpened(Err(error)),
        ) == (Outcome {
            state: AcquisitionView { phase: Phase::Ready, ..state },
            act: Act::CheckStop,
            lines: seq![failure("session"@, path + ": "@ + error@)],
        }),
        state.phase == Phase::Recording ==> stepped(state, Happened::Recorded(Err(error))) == (
        Outcome {
            state: AcquisitionView { phase: Phase::AskingRestart, recording: false, ..state },
            act: Act::AskRestart,
            lines: seq![failure("session"@, "recording stopped: "@ + error@)],
        }),
{
    let line = failure("session"@, path + ": "@ + error@);
    assert(seq![line] + Seq::<Line>::empty() =~= seq![line]);
    let stopped = failure("session"@, "recording stopped: "@ + error@);
    assert(seq![stopped] + Seq::<Line>::empty() =~= seq![stopped]);
}

/// A recording that is open is flushed before it is over, and what is over stays over.
pub proof fn the_recording_is_flushed_at_the_end(state: AcquisitionView, happened: Happened)
    ensures
        state.phase != Phase::Closing && state.phase != Phase::Ended && stepped(
            state,
            happened,
        ).act is End ==> !stepped(state, happened).state.recording,
        state.phase == Phase::Ended ==> stepped(state, happened) == (Outcome {
            state,
            act: Act::End,
            lines: Seq::empty(),
        }),
{
}

/// Acquisition that stops because the decode side is gone says which of two reasons it was, in
/// one line.
pub proof fn a_lost_decoder_is_reported(state: AcquisitionView, errand: Errand)
    ensures
        state.phase == Phase::Offering(errand) ==> stepped(
            state,
            Happened::Answered(Answer::Closed),
        ).state.phase == Phase::Lost,
        state.phase == Phase::Waiting(errand) ==> stepped(
            state,
            Happened::Waited(false),
        ).state.phase == Phase::Lost,
        state.phase == Phase::Lost ==> stepped(state, Happened::StopFlag(true)).lines == seq![
            info("session"@, SESSION_CLOSED@),
        ] && stepped(state, Happened::StopFlag(false)).lines == seq![
            failure("session"@, DECODER_GONE@),
        ],
{
    let closed = info("session"@, SESSION_CLOSED@);
    let gone = failure("session"@, DECODER_GONE@);
    assert(seq![closed] + Seq::<Line>::empty() =~= seq![closed]);
    assert(seq![gone] + Seq::<Line>::empty() =~= seq![gone]);
}

} // verus!
