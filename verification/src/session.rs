//! A running station: one definition, one source, one store.
//!
//! Two tasks make it up. One reads the source and hands packets over; see
//! [`crate::acquire`]. The other decodes what was handed over, all that is waiting at once, and
//! files it in the store in one go. What they share is here, and so is what it takes to start.

use std::collections::VecDeque;

use vstd::prelude::*;

use crate::acquire::{Acquisition, AcquisitionView, Phase};
use crate::config::{session_refusal, SessionConfig};
use crate::decode::{
    both_sides, accepted, event_views, is_batch_of, refused, restarted, DecoderView, PacketDecoder, empty_batch,
};
use crate::decoded::{DecodeError, DecodedPacket};
use crate::dispatch::{Dispatch, DispatchView, PACKET_QUEUE_DEPTH};
use crate::error::{EngineError, EngineErrorView};
use crate::event::{logged, totalled_up, Event, EventLog, EventView, Severity};
use crate::ids::ParamId;
use crate::limits::{Limit, LimitSet};
use crate::link::SourceSpec;
use crate::packet::RawPacket;
use crate::sample::{sample_views, Batch};
use crate::sctime::{undeclared_clock, SpacecraftClock};
use crate::sequence::fresh_tracker;
use crate::stats::{Counter, LinkStats};
use crate::store::{ingested_batch, ParameterStore, StoreView};

verus! {

/// Appends a line to a log.
pub fn log(events: &mut EventLog, event: Event)
    requires
        old(events).wf(),
    ensures
        final(events).wf(),
        final(events).limit() == old(events).limit(),
        final(events).lines() == logged(old(events).lines(), old(events).limit(), event@),
        final(events).pushes() == totalled_up(old(events).pushes()),
{
    events.push(event);
}

/// One thing the decode side takes off its queue, with what the definition made of it.
#[derive(Debug)]
pub enum Work {
    /// The byte stream restarted.
    Restart,
    /// One packet off the link.
    Packet(RawPacket, Result<DecodedPacket, DecodeError>),
}

/// The decoder after everything that was queued.
pub open spec fn decoder_after(decoder: DecoderView, queued: Seq<Work>) -> DecoderView
    decreases queued.len(),
{
    if queued.len() == 0 {
        decoder
    } else {
        let before = decoder_after(decoder, queued.drop_last());
        match queued.last() {
            Work::Restart => restarted(before),
            Work::Packet(packet, Ok(described)) => accepted(
                before,
                &described,
                packet.received,
                packet.bytes@,
            ),
            Work::Packet(packet, Err(_)) => refused(before, packet.received, packet.bytes@),
        }
    }
}

/// Whether batches are what the packets that were described became, in their order.
pub open spec fn are_batches_of(batches: Seq<Batch>, decoder: DecoderView, queued: Seq<Work>) -> bool
    decreases queued.len(),
{
    if queued.len() == 0 {
        batches.len() == 0
    } else {
        match queued.last() {
            Work::Packet(packet, Ok(described)) => {
                &&& batches.len() > 0
                &&& are_batches_of(batches.drop_last(), decoder, queued.drop_last())
                &&& is_batch_of(
                    batches.last(),
                    decoder_after(decoder, queued.drop_last()),
                    &described,
                    packet.received,
                    packet.bytes@,
                )
            },
            _ => are_batches_of(batches, decoder, queued.drop_last()),
        }
    }
}

/// The sentence of the first packet that was refused.
pub open spec fn first_refusal(queued: Seq<Work>) -> Option<Seq<char>>
    decreases queued.len(),
{
    if queued.len() == 0 {
        None
    } else {
        match (first_refusal(queued.drop_last()), queued.last()) {
            (Some(reason), _) => Some(reason),
            (None, Work::Packet(_, Err(error))) => Some(error.message@),
            (None, _) => None,
        }
    }
}

/// How many of the packets that were queued are described.
pub open spec fn described_count(queued: Seq<Work>) -> nat
    decreases queued.len(),
{
    if queued.len() == 0 {
        0
    } else {
        described_count(queued.drop_last()) + (match queued.last() {
            Work::Packet(_, Ok(_)) => 1nat,
            _ => 0nat,
        })
    }
}

/// What was queued makes one batch for each packet that was described, and for nothing else: a
/// wake-up that carried only refusals and restarts has nothing to file.
pub proof fn each_described_packet_makes_one_batch(
    batches: Seq<Batch>,
    decoder: DecoderView,
    queued: Seq<Work>,
)
    requires
        are_batches_of(batches, decoder, queued),
    ensures
        batches.len() == described_count(queued),
    decreases queued.len(),
{
    if queued.len() > 0 {
        match queued.last() {
            Work::Packet(_, Ok(_)) => {
                each_described_packet_makes_one_batch(
                    batches.drop_last(),
                    decoder,
                    queued.drop_last(),
                );
            },
            _ => {
                each_described_packet_makes_one_batch(batches, decoder, queued.drop_last());
            },
        }
    }
}

/// A restart is applied where it stands: what was queued before it is decoded with the counts of
/// the stream before, what was queued behind it without them.
pub proof fn a_restart_has_its_place(decoder: DecoderView, before: Seq<Work>, behind: Seq<Work>)
    ensures
        decoder_after(decoder, before.push(Work::Restart) + behind) == decoder_after(
            restarted(decoder_after(decoder, before)),
            behind,
        ),
    decreases behind.len(),
{
    let queued = before.push(Work::Restart) + behind;
    if behind.len() == 0 {
        assert(queued =~= before.push(Work::Restart));
        assert(queued.drop_last() =~= before);
    } else {
        a_restart_has_its_place(decoder, before, behind.drop_last());
        assert(queued.drop_last() =~= before.push(Work::Restart) + behind.drop_last());
    }
}

/// Decodes everything that was queued, in order: the batches to file, and the sentence of the
/// first packet that was refused.
///
/// One sentence and not one per packet: a definition pointed at the wrong stream rejects every
/// packet.
pub fn decode_queued(packets: &mut PacketDecoder, queued: VecDeque<Work>) -> (r: (
    Vec<Batch>,
    Option<String>,
))
    requires
        old(packets)@.sequence.valid(),
    ensures
        final(packets)@.sequence.valid(),
        final(packets)@ == decoder_after(old(packets)@, queued@),
        are_batches_of(r.0@, old(packets)@, queued@),
        match r.1 {
            Some(reason) => first_refusal(queued@) == Some(reason@),
            None => first_refusal(queued@) is None,
        },
{
    let mut batches: Vec<Batch> = Vec::new();
    let mut reason: Option<String> = None;
    let mut remaining: VecDeque<Work> = queued;
    let ghost works = queued@;
    let ghost start = packets@;
    let ghost mut done: int = 0;
    proof {
        assert(works.take(0) =~= Seq::empty());
        assert(works.skip(0) =~= works);
    }
    while remaining.len() > 0
        invariant
            0 <= done <= works.len(),
            remaining@ == works.skip(done),
            packets@.sequence.valid(),
            packets@ == decoder_after(start, works.take(done)),
            are_batches_of(batches@, start, works.take(done)),
            match reason {
                Some(sentence) => first_refusal(works.take(done)) == Some(sentence@),
                None => first_refusal(works.take(done)) is None,
            },
        decreases remaining@.len(),
    {
        let work = match remaining.pop_front() {
            Some(work) => work,
            None => {
                assert(false);
                Work::Restart
            },
        };
        proof {
            assert(work == works[done]);
            assert(remaining@ =~= works.skip(done + 1));
            assert(works.take(done + 1).drop_last() =~= works.take(done));
            assert(works.take(done + 1).last() == work);
        }
        match work {
            Work::Restart => {
                packets.reset();
            },
            Work::Packet(packet, decoded) => {
                let mut batch = empty_batch();
                match packets.decode_owned(decoded, &packet, &mut batch) {
                    Ok(_) => {
                        let ghost earlier = batches@;
                        batches.push(batch);
                        assert(batches@.drop_last() =~= earlier);
                    },
                    Err(error) => {
                        if reason.is_none() {
                            reason = Some(error.message);
                        }
                    },
                }
            },
        }
        proof {
            done = done + 1;
        }
    }
    proof {
        assert(works.skip(done).len() == 0);
        assert(works.take(done) =~= works);
    }
    (batches, reason)
}

/// A store after several batches.
pub open spec fn ingested_all(store: StoreView, batches: Seq<Batch>) -> StoreView
    decreases batches.len(),
{
    if batches.len() == 0 {
        store
    } else {
        ingested_batch(
            ingested_all(store, batches.drop_last()),
            sample_views(batches.last().samples@),
            batches.last().placed_at(),
        )
    }
}

/// Files several batches.
pub fn ingest_all(store: &mut ParameterStore, batches: &Vec<Batch>)
    requires
        old(store).wf(),
    ensures
        final(store).wf(),
        final(store)@ == ingested_all(old(store)@, batches@),
{
    let ghost before = store@;
    let mut index: usize = 0;
    assert(batches@.take(0) =~= Seq::empty());
    while index < batches.len()
        invariant
            index <= batches@.len(),
            store.wf(),
            store@ == ingested_all(before, batches@.take(index as int)),
        decreases batches@.len() - index,
    {
        store.ingest(&batches[index]);
        assert(batches@.take(index + 1).drop_last() =~= batches@.take(index as int));
        index = index + 1;
    }
    assert(batches@.take(index as int) =~= batches@);
}

/// What the decode side has to log: what the decoder noticed, and behind it why a packet was
/// refused.
pub fn decode_lines(packets: &mut PacketDecoder, reason: Option<String>) -> (r: Vec<Event>)
    ensures
        final(packets)@ == (DecoderView { events: Seq::empty(), ..old(packets)@ }),
        match reason {
            None => event_views(r@) == old(packets)@.events,
            Some(sentence) => {
                &&& r@.len() == old(packets)@.events.len() + 1
                &&& event_views(r@).drop_last() == old(packets)@.events
                &&& r@.last().severity == Severity::Warning
                &&& r@.last().source@ == "decode"@
                &&& r@.last().message@ == sentence@
            },
        },
{
    let mut lines: Vec<Event> = packets.take_events();
    if let Some(sentence) = reason {
        let ghost noticed = lines@;
        lines.push(Event::warning("decode", sentence));
        assert(event_views(lines@).drop_last() =~= event_views(noticed));
    }
    lines
}

/// A running station.
#[derive(Debug)]
pub struct Session {
    config: SessionConfig,
    store: ParameterStore,
    stats: LinkStats,
    events: EventLog,
    limits: LimitSet,
    source: String,
    running: bool,
    dropped: u64,
    stop: bool,
}

/// What a session is, to a caller.
pub struct SessionView {
    /// The configuration it was started from.
    pub config: SessionConfig,
    /// What has been decoded.
    pub store: StoreView,
    /// The counters.
    pub stats: LinkStats,
    /// The lines logged, oldest first, each with how many times it was repeated.
    pub lines: Seq<(EventView, u32)>,
    /// How many lines the log can hold.
    pub line_limit: nat,
    /// How many lines have ever been logged.
    pub pushes: u64,
    /// The limits loaded at start-up.
    pub limits: Map<Seq<char>, Limit>,
    /// What it is reading.
    pub source: Seq<char>,
    /// Whether acquisition is still reading.
    pub running: bool,
    /// Packets thrown away because the decoder was behind.
    pub dropped: u64,
    /// Whether a stop was asked for.
    pub stop: bool,
}

impl View for Session {
    type V = SessionView;

    closed spec fn view(&self) -> SessionView {
        SessionView {
            config: self.config,
            store: self.store@,
            stats: self.stats,
            lines: self.events.lines(),
            line_limit: self.events.limit(),
            pushes: self.events.pushes(),
            limits: self.limits@,
            source: self.source@,
            running: self.running,
            dropped: self.dropped,
            stop: self.stop,
        }
    }
}

/// Why a session cannot be started, if it cannot: the first of the reasons, in the order in
/// which things are opened.
pub open spec fn start_refusal(
    config: SessionConfig,
    framing: Result<(), String>,
    definition: Result<usize, String>,
    root: Result<(), String>,
    limits: Option<Result<LimitSet, EngineError>>,
    clock: Option<ParamId>,
) -> Option<EngineErrorView> {
    if session_refusal(config, framing) is Some {
        session_refusal(config, framing)
    } else if definition is Err {
        Some(EngineErrorView::Xtce(definition->Err_0@))
    } else if root is Err {
        Some(EngineErrorView::Decode(root->Err_0@))
    } else if limits is Some && limits->0 is Err {
        Some(limits->0->Err_0@)
    } else if config.spacecraft_time is Some && clock is None {
        Some(
            EngineErrorView::Config(undeclared_clock(config.spacecraft_time->0.parameter@)),
        )
    } else {
        None
    }
}

/// The clock of a session: the parameter that was found, in the layout that was configured.
pub open spec fn is_clock_of(
    clock: Option<SpacecraftClock>,
    config: SessionConfig,
    found: Option<ParamId>,
) -> bool {
    match config.spacecraft_time {
        None => clock is None,
        Some(time) => match clock {
            Some(clock) => Some(clock.source()) == found && clock.layout() == time.format,
            None => false,
        },
    }
}

/// A session that was asked to stop.
pub open spec fn shut_down(session: SessionView) -> SessionView {
    SessionView { running: false, stop: true, ..session }
}

impl Session {
    /// What every session keeps.
    pub closed spec fn wf(&self) -> bool {
        self.store.wf() && self.events.wf() && self.limits.wf()
    }

    /// Puts a session together from what was loaded: the session, what its acquisition starts
    /// with and what its decode side starts with.
    ///
    /// `spec` is the source in words; `framing`, what the link says of its framing;
    /// `definition`, how many parameters the definition declares; `root`, whether the root
    /// container is in it; `limits`, what the limits file holds, where one is configured; and
    /// `clock`, the parameter of the spacecraft clock, where the definition declares it.
    pub fn start(
        config: SessionConfig,
        spec: String,
        framing: Result<(), String>,
        definition: Result<usize, String>,
        root: Result<(), String>,
        limits: Option<Result<LimitSet, EngineError>>,
        clock: Option<ParamId>,
    ) -> (r: Result<(Session, Acquisition, PacketDecoder), EngineError>)
        requires
            limits matches Some(Ok(set)) ==> set.wf(),
        ensures
            match start_refusal(config, framing, definition, root, limits, clock) {
                Some(refusal) => r matches Err(error) && error@ == refusal,
                None => r is Ok,
            },
            r matches Ok((session, acquisition, packets)) ==> {
                &&& session.wf()
                &&& session@.config == config
                &&& session@.store == (StoreView {
                    latest: Seq::new(definition->Ok_0 as nat, |i: int| None),
                    updates: Seq::new(definition->Ok_0 as nat, |i: int| 0u32),
                    history: Seq::new(definition->Ok_0 as nat, |i: int| None),
                    depth: config.history_depth as nat,
                    generation: 0,
                    ingested: 0,
                })
                &&& forall|counter: Counter| #[trigger] session@.stats.count(counter) == 0
                &&& session@.stats.last_packet == i64::MIN
                &&& session@.lines == Seq::<(EventView, u32)>::empty()
                &&& session@.line_limit == config.event_capacity
                &&& session@.pushes == 0
                &&& session@.limits == (match limits {
                    Some(Ok(set)) => set@,
                    _ => Map::empty(),
                })
                &&& session@.source == spec@
                &&& session@.running
                &&& session@.dropped == 0
                &&& !session@.stop
                &&& acquisition@ == (AcquisitionView {
                    spec: spec@,
                    described: spec@,
                    record: match config.record {
                        Some(path) => Some(path@),
                        None => None,
                    },
                    recording: false,
                    failures: 0,
                    packets: Seq::empty(),
                    dropped_before: 0,
                    queue: DispatchView {
                        ring: Seq::empty(),
                        capacity: 1024,
                        lossy: !(config.source is File),
                        dropped: 0,
                        pending: None,
                        offering_ring: false,
                    },
                    phase: Phase::Connecting,
                })
                &&& packets@.sequence == fresh_tracker()
                &&& packets@.sequence.valid()
                &&& packets@.stats == session@.stats
                &&& packets@.events == Seq::<EventView>::empty()
                &&& packets@.warned == Seq::<bool>::empty()
                &&& is_clock_of(packets@.clock, config, clock)
            },
    {
        match config.validate(framing) {
            Ok(_) => {},
            Err(error) => return Err(error),
        }
        let parameters: usize = match definition {
            Ok(parameters) => parameters,
            Err(message) => return Err(EngineError::Xtce(message)),
        };
        match root {
            Ok(_) => {},
            Err(message) => return Err(EngineError::Decode(message)),
        }
        let limits: LimitSet = match limits {
            Some(Ok(set)) => set,
            Some(Err(error)) => return Err(error),
            None => LimitSet::new(),
        };
        let clock: Option<SpacecraftClock> = match &config.spacecraft_time {
            Some(source) => match SpacecraftClock::resolve(clock, source) {
                Ok(clock) => Some(clock),
                Err(error) => return Err(error),
            },
            None => None,
        };
        let replay = match &config.source {
            SourceSpec::File { .. } => true,
            _ => false,
        };
        let record: Option<String> = match &config.record {
            Some(path) => Some(path.clone()),
            None => None,
        };
        let stats = LinkStats::new();
        let acquisition = Acquisition::new(
            spec.clone(),
            record,
            Dispatch::new(PACKET_QUEUE_DEPTH, !replay),
        );
        let packets = PacketDecoder::new(clock, stats);
        let session = Session {
            store: ParameterStore::new(parameters, config.history_depth),
            stats,
            events: EventLog::with_capacity(config.event_capacity),
            limits,
            source: spec,
            running: true,
            dropped: 0,
            stop: false,
            config,
        };
        Ok((session, acquisition, packets))
    }

    /// The configuration this session was started from.
    pub fn config(&self) -> (r: &SessionConfig)
        ensures
            *r == self@.config,
    {
        &self.config
    }

    /// The store the decode side writes and the interface reads.
    pub fn store(&self) -> (r: &ParameterStore)
        requires
            self.wf(),
        ensures
            r.wf(),
            r@ == self@.store,
    {
        &self.store
    }

    /// The link counters.
    pub fn stats(&self) -> (r: &LinkStats)
        ensures
            *r == self@.stats,
    {
        &self.stats
    }

    /// The event log.
    pub fn events(&self) -> (r: &EventLog)
        requires
            self.wf(),
        ensures
            r.wf(),
            r.lines() == self@.lines,
            r.limit() == self@.line_limit,
            r.pushes() == self@.pushes,
    {
        &self.events
    }

    /// The limits loaded at start-up.
    pub fn limits(&self) -> (r: &LimitSet)
        requires
            self.wf(),
        ensures
            r.wf(),
            r@ == self@.limits,
    {
        &self.limits
    }

    /// Packets thrown away because the decoder was behind.
    pub fn dropped(&self) -> (r: u64)
        ensures
            r == self@.dropped,
    {
        self.dropped
    }

    /// One line naming what this session is reading: what was really opened, once it is.
    pub fn describe_source(&self) -> (r: String)
        ensures
            r@ == self@.source,
    {
        self.source.clone()
    }

    /// Whether acquisition is still reading.
    pub fn is_running(&self) -> (r: bool)
        ensures
            r == self@.running,
    {
        self.running
    }

    /// Whether a stop was asked for.
    pub fn is_stopping(&self) -> (r: bool)
        ensures
            r == self@.stop,
    {
        self.stop
    }

    /// Asks both tasks to stop. Asking twice is asking once.
    pub fn shutdown(&mut self)
        requires
            old(self).wf(),
        ensures
            final(self).wf(),
            final(self)@ == shut_down(old(self)@),
    {
        self.running = false;
        self.stop = true;
    }

    /// Takes over what acquisition knows: what it really opened, and what it dropped.
    pub fn observe(&mut self, acquisition: &Acquisition)
        requires
            old(self).wf(),
        ensures
            final(self).wf(),
            final(self)@ == (SessionView {
                source: acquisition@.described,
                dropped: acquisition@.queue.dropped,
                ..old(self)@
            }),
    {
        self.source = acquisition.described().to_owned();
        self.dropped = acquisition.dropped();
    }

    /// Acquisition has ended, however it did.
    pub fn finish(&mut self)
        requires
            old(self).wf(),
        ensures
            final(self).wf(),
            final(self)@ == (SessionView { running: false, ..old(self)@ }),
    {
        self.running = false;
    }

    /// Takes over the counters of both sides.
    pub fn count(&mut self, link: &LinkStats, packets: &PacketDecoder)
        requires
            old(self).wf(),
        ensures
            final(self).wf(),
            final(self)@ == (SessionView {
                stats: both_sides(*link, packets@.stats),
                ..old(self)@
            }),
    {
        self.stats = packets.stats_with(link);
    }

    /// Logs a line.
    pub fn log(&mut self, event: Event)
        requires
            old(self).wf(),
        ensures
            final(self).wf(),
            final(self)@ == (SessionView {
                lines: logged(old(self)@.lines, old(self)@.line_limit, event@),
                pushes: totalled_up(old(self)@.pushes),
                ..old(self)@
            }),
    {
        log(&mut self.events, event);
    }

    /// Files what the decode side made of one wake-up. Whether there is anything new to show.
    pub fn file(&mut self, batches: &Vec<Batch>) -> (r: bool)
        requires
            old(self).wf(),
        ensures
            final(self).wf(),
            r == (batches@.len() > 0),
            final(self)@ == (SessionView {
                store: ingested_all(old(self)@.store, batches@),
                ..old(self)@
            }),
    {
        ingest_all(&mut self.store, batches);
        batches.len() > 0
    }
}

/// Asking a session to stop twice is asking it once, and what it has filed and logged stays.
pub proof fn shutting_down_twice_changes_nothing(session: SessionView)
    ensures
        shut_down(shut_down(session)) == shut_down(session),
        shut_down(session).store == session.store,
        shut_down(session).lines == session.lines,
        shut_down(session).stats == session.stats,
{
}

} // verus!
