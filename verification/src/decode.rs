//! From raw packets to batches the store can take.
//!
//! What the definition makes of a packet arrives as a [`DecodedPacket`] or a [`DecodeError`];
//! everything the station keeps of it is copied out here, once, into samples. The sequence
//! counts are filed here too, and what they say was lost becomes an event.

use vstd::prelude::*;
use vstd::string::*;

use crate::decoded::{DecodeError, DecodedPacket, DecodedValue};
use crate::event::{Event, EventView, Severity};
use crate::ids::ContainerId;
use crate::packet::{apid_of, count_of, RawPacket};
use crate::sample::{sample_views, Batch, Sample, SampleView};
use crate::sctime::SpacecraftClock;
use crate::sequence::{
    missed_before, note_report, noted, observed, fresh_tracker, GapReport, SequenceTracker, TrackerView,
};
use crate::stats::{Counter, LinkStats};
use crate::text::{decimal, push_decimal, push_signed, signed_decimal};
use crate::time::Utc;
use crate::value::Value;

verus! {

/// What this module calls itself on the event log.
pub const SOURCE: &'static str = "decode";

/// An empty batch, for a caller that reuses one across packets.
///
/// The container is a placeholder that [`PacketDecoder::decode_into`] overwrites.
pub fn empty_batch() -> (r: Batch)
    ensures
        r.container.number == 0,
        r.received.nanos() == 0,
        r.spacecraft is None,
        r.apid == 0,
        r.sequence == 0,
        !r.sequence_gap,
        r.samples@ == Seq::<Sample>::empty(),
{
    Batch {
        container: ContainerId::new(0),
        received: Utc::epoch(),
        spacecraft: None,
        apid: 0,
        sequence: 0,
        sequence_gap: false,
        samples: Vec::new(),
    }
}

/// What the values of a packet become: one sample each, all at the same instant.
pub open spec fn projected(values: Seq<DecodedValue>, time: Utc) -> Seq<SampleView> {
    values.map_values(
        |value: DecodedValue|
            SampleView { parameter: value.parameter, time, raw: value.raw@, eng: value.eng@ },
    )
}

/// Projects every decoded value into an owned sample. `out` is cleared first.
///
/// Every sample takes the same time, because the packet is the instant.
pub fn project(decoded: &DecodedPacket, time: Utc, out: &mut Vec<Sample>)
    ensures
        sample_views(final(out)@) == projected(decoded.values@, time),
{
    out.clear();
    let mut index: usize = 0;
    while index < decoded.values.len()
        invariant
            index <= decoded.values@.len(),
            out@.len() == index,
            forall|i: int|
                0 <= i < index ==> (#[trigger] out@[i])@ == projected(decoded.values@, time)[i],
        decreases decoded.values@.len() - index,
    {
        let value: &DecodedValue = &decoded.values[index];
        out.push(
            Sample {
                parameter: value.parameter,
                time,
                raw: Value::from_raw(&value.raw),
                eng: Value::from_eng(&value.eng),
            },
        );
        index = index + 1;
    }
    assert(sample_views(out@) =~= projected(decoded.values@, time));
}

/// What the primary header said, and whether the sequence count skipped.
#[derive(Clone, Copy, PartialEq, Eq, Debug, Structural)]
pub struct Header {
    pub apid: u16,
    pub sequence: u16,
    pub gap: bool,
}

/// Turns raw packets into batches the store can take.
#[derive(Debug)]
pub struct PacketDecoder {
    clock: Option<SpacecraftClock>,
    sequence: SequenceTracker,
    stats: LinkStats,
    events: Vec<Event>,
    warned: Vec<bool>,
}

/// What a decoder knows and has to say.
#[verifier::ext_equal]
pub struct DecoderView {
    /// The spacecraft clock.
    pub clock: Option<SpacecraftClock>,
    /// The sequence counts.
    pub sequence: TrackerView,
    /// The counters.
    pub stats: LinkStats,
    /// The lines waiting to be taken.
    pub events: Seq<EventView>,
    /// Which containers have been warned of.
    pub warned: Seq<bool>,
}

/// What the lines of a queue say.
pub open spec fn event_views(events: Seq<Event>) -> Seq<EventView> {
    events.map_values(|event: Event| event@)
}

/// The counters of a pass whose link counts on one side and whose decoder counts on the other:
/// the decoder's where it is the one that counts, its last packet once it has seen one, and the
/// link's for the rest.
pub open spec fn both_sides(link: LinkStats, decoded: LinkStats) -> LinkStats {
    LinkStats {
        packets_decoded: decoded.packets_decoded,
        packets_rejected: decoded.packets_rejected,
        sequence_gaps: decoded.sequence_gaps,
        sequence_missing: decoded.sequence_missing,
        last_packet: if decoded.last_packet == i64::MIN {
            link.last_packet
        } else {
            decoded.last_packet
        },
        ..link
    }
}

impl View for PacketDecoder {
    type V = DecoderView;

    closed spec fn view(&self) -> DecoderView {
        DecoderView {
            clock: self.clock,
            sequence: self.sequence@,
            stats: self.stats,
            events: event_views(self.events@),
            warned: self.warned@,
        }
    }
}

/// The line that says a link recovered.
pub open spec fn recovered_text(apid: u16, gaps: u32, missing: u32) -> Seq<char> {
    "APID "@ + decimal(apid as nat) + ": contiguous again after "@ + decimal(gaps as nat)
        + " gap(s), "@ + decimal(missing as nat) + " packet(s) missing in all"@
}

/// The line that names the first gap of a dropout.
pub open spec fn first_gap_text(apid: u16, missed: u16, sequence: u16) -> Seq<char> {
    "APID "@ + decimal(apid as nat) + ": "@ + decimal(missed as nat)
        + " packet(s) missing before sequence count "@ + decimal(sequence as nat)
}

/// The line that gives the running total of a dropout.
pub open spec fn running_text(apid: u16, gaps: u32, missing: u32) -> Seq<char> {
    "APID "@ + decimal(apid as nat) + ": "@ + decimal(gaps as nat) + " gaps so far, "@ + decimal(
        missing as nat,
    ) + " packet(s) missing"@
}

/// The line that says a definition does not describe a whole packet.
pub open spec fn trailing_text(name: Seq<char>, bits: i64) -> Seq<char> {
    name + ": "@ + signed_decimal(bits as int)
        + " bit(s) of the packet are not described by the definition"@
}

/// The line a report on a packet's count becomes, if it becomes one.
pub open spec fn gap_line(
    report: GapReport,
    apid: u16,
    sequence: u16,
    missed: u16,
    received: Utc,
) -> Option<EventView> {
    match report {
        GapReport::Quiet => None,
        GapReport::First => Some(
            EventView {
                time: received,
                severity: Severity::Warning,
                source: "decode"@,
                message: first_gap_text(apid, missed, sequence),
            },
        ),
        GapReport::Running { gaps, missing, recovered } => if recovered {
            Some(
                EventView {
                    time: received,
                    severity: Severity::Info,
                    source: "decode"@,
                    message: recovered_text(apid, gaps, missing),
                },
            )
        } else {
            Some(
                EventView {
                    time: received,
                    severity: Severity::Warning,
                    source: "decode"@,
                    message: running_text(apid, gaps, missing),
                },
            )
        },
    }
}

/// A queue with one more line, where there is one.
pub open spec fn queued(events: Seq<EventView>, line: Option<EventView>) -> Seq<EventView> {
    match line {
        Some(line) => events.push(line),
        None => events,
    }
}

/// What the header of a packet said. A packet too short to have one said nothing.
pub open spec fn header_of(decoder: DecoderView, bytes: Seq<u8>) -> Header {
    if bytes.len() >= 6 {
        let apid = apid_of(bytes) as u16;
        let sequence = count_of(bytes) as u16;
        Header {
            apid,
            sequence,
            gap: missed_before(decoder.sequence, apid, sequence) > 0,
        }
    } else {
        Header { apid: 0, sequence: 0, gap: false }
    }
}

/// A decoder after the header of one packet: the arrival is noted, and where there is a header
/// its count is filed and what it cost is counted and said.
pub open spec fn header_filed(decoder: DecoderView, received: Utc, bytes: Seq<u8>) -> DecoderView {
    let touched = LinkStats { last_packet: received.0, ..decoder.stats };
    if bytes.len() >= 6 {
        let apid = apid_of(bytes) as u16;
        let sequence = count_of(bytes) as u16;
        let missed = missed_before(decoder.sequence, apid, sequence) as u16;
        let seen = observed(decoder.sequence, apid, sequence);
        let report = note_report(seen, apid, missed);
        DecoderView {
            sequence: noted(seen, apid, missed),
            stats: if missed > 0 {
                touched.added(Counter::SequenceGaps, 1).added(
                    Counter::SequenceMissing,
                    missed as u64,
                )
            } else {
                touched
            },
            events: queued(decoder.events, gap_line(report, apid, sequence, missed, received)),
            ..decoder
        }
    } else {
        DecoderView { stats: touched, ..decoder }
    }
}

/// Which containers have been warned of, with a place for each of `count`.
pub open spec fn warned_places(warned: Seq<bool>, count: nat) -> Seq<bool> {
    if warned.len() < count {
        warned + Seq::new((count - warned.len()) as nat, |i: int| false)
    } else {
        warned
    }
}

/// The name a container is warned of by.
pub open spec fn container_label(name: Option<String>) -> Seq<char> {
    match name {
        Some(name) => name@,
        None => "?"@,
    }
}

/// A decoder after it has looked whether the definition described the whole of a packet: a
/// container is warned of once.
pub open spec fn trailing_checked(
    decoder: DecoderView,
    decoded: &DecodedPacket,
    received: Utc,
) -> DecoderView {
    if decoded.trailing_bits <= 0 {
        decoder
    } else {
        let places = warned_places(decoder.warned, decoded.container_count as nat);
        let index = decoded.container.number as int;
        if index < places.len() && !places[index] {
            DecoderView {
                warned: places.update(index, true),
                events: decoder.events.push(
                    EventView {
                        time: received,
                        severity: Severity::Warning,
                        source: "decode"@,
                        message: trailing_text(
                            container_label(decoded.container_name),
                            decoded.trailing_bits,
                        ),
                    },
                ),
                ..decoder
            }
        } else {
            DecoderView { warned: places, ..decoder }
        }
    }
}

/// The spacecraft time of a packet, where a clock is configured and the packet carries it.
pub open spec fn spacecraft_time(clock: Option<SpacecraftClock>, decoded: &DecodedPacket) -> Option<
    Utc,
> {
    match clock {
        Some(clock) => clock.reading(decoded),
        None => None,
    }
}

/// A decoder after a packet that the definition described.
pub open spec fn accepted(
    decoder: DecoderView,
    decoded: &DecodedPacket,
    received: Utc,
    bytes: Seq<u8>,
) -> DecoderView {
    let checked = trailing_checked(header_filed(decoder, received, bytes), decoded, received);
    DecoderView { stats: checked.stats.added(Counter::PacketsDecoded, 1), ..checked }
}

/// A decoder after a packet that the definition refused: counted, and not said.
pub open spec fn refused(decoder: DecoderView, received: Utc, bytes: Seq<u8>) -> DecoderView {
    let filed = header_filed(decoder, received, bytes);
    DecoderView { stats: filed.stats.added(Counter::PacketsRejected, 1), ..filed }
}

/// Whether a batch is what a described packet becomes.
pub open spec fn is_batch_of(
    batch: Batch,
    decoder: DecoderView,
    decoded: &DecodedPacket,
    received: Utc,
    bytes: Seq<u8>,
) -> bool {
    let header = header_of(decoder, bytes);
    &&& batch.container == decoded.container
    &&& batch.received == received
    &&& batch.spacecraft == spacecraft_time(decoder.clock, decoded)
    &&& batch.apid == header.apid
    &&& batch.sequence == header.sequence
    &&& batch.sequence_gap == header.gap
    &&& sample_views(batch.samples@) == projected(decoded.values@, batch.placed_at())
}

impl PacketDecoder {
    /// A decoder that has seen nothing, counting from `stats`.
    pub fn new(clock: Option<SpacecraftClock>, stats: LinkStats) -> (r: Self)
        ensures
            r@.sequence.valid(),
            r@ == (DecoderView {
                clock,
                sequence: fresh_tracker(),
                stats,
                events: Seq::empty(),
                warned: Seq::empty(),
            }),
    {
        let decoder = PacketDecoder {
            clock,
            sequence: SequenceTracker::new(),
            stats,
            events: Vec::new(),
            warned: Vec::new(),
        };
        assert(decoder@.events =~= Seq::empty());
        decoder
    }

    /// The configured spacecraft clock, when there is one.
    pub fn clock(&self) -> (r: Option<&SpacecraftClock>)
        ensures
            r is Some <==> self@.clock is Some,
            r matches Some(clock) ==> self@.clock == Some(*clock),
    {
        self.clock.as_ref()
    }

    /// The per-APID sequence counts.
    pub fn sequence(&self) -> (r: &SequenceTracker)
        ensures
            r@ == self@.sequence,
    {
        &self.sequence
    }

    /// The counters this decoder writes.
    pub fn stats(&self) -> (r: &LinkStats)
        ensures
            *r == self@.stats,
    {
        &self.stats
    }

    /// The counters of both sides: what this decoder counts, and from the link the rest.
    pub fn stats_with(&self, link: &LinkStats) -> (r: LinkStats)
        ensures
            r == both_sides(*link, self@.stats),
    {
        let mut stats: LinkStats = *link;
        stats.packets_decoded = self.stats.packets_decoded;
        stats.packets_rejected = self.stats.packets_rejected;
        stats.sequence_gaps = self.stats.sequence_gaps;
        stats.sequence_missing = self.stats.sequence_missing;
        if self.stats.last_packet != i64::MIN {
            stats.last_packet = self.stats.last_packet;
        }
        stats
    }

    /// Files one packet that the definition has been put to, reusing `batch`.
    ///
    /// A rejection is counted here and no event is queued for it: the caller holds the error
    /// and the packet and can say more about it. A sequence gap is the other way round: it is
    /// queued as an event here, because it is discovered here. `last_packet` takes the receipt
    /// time and is touched for a refused packet too.
    pub fn decode_into(
        &mut self,
        decoded: Result<&DecodedPacket, DecodeError>,
        packet: &RawPacket,
        batch: &mut Batch,
    ) -> (r: Result<(), DecodeError>)
        requires
            old(self)@.sequence.valid(),
        ensures
            final(self)@.sequence.valid(),
            match decoded {
                Ok(described) => {
                    &&& r is Ok
                    &&& final(self)@ == accepted(
                        old(self)@,
                        described,
                        packet.received,
                        packet.bytes@,
                    )
                    &&& is_batch_of(
                        *final(batch),
                        old(self)@,
                        described,
                        packet.received,
                        packet.bytes@,
                    )
                },
                Err(error) => {
                    &&& r == Err::<(), DecodeError>(error)
                    &&& final(self)@ == refused(old(self)@, packet.received, packet.bytes@)
                    &&& *final(batch) == *old(batch)
                },
            },
    {
        let header = self.observe_header(packet);
        match decoded {
            Err(error) => {
                let ghost filed = self@;
                self.stats.add(Counter::PacketsRejected, 1);
                assert(self@.events =~= filed.events);
                Err(error)
            },
            Ok(described) => {
                self.fill(described, packet, header, batch);
                Ok(())
            },
        }
    }

    /// Files one owned packet that the definition has been put to.
    ///
    /// Counters and events are exactly as [`PacketDecoder::decode_into`] describes them.
    pub fn decode_owned(
        &mut self,
        decoded: Result<DecodedPacket, DecodeError>,
        packet: &RawPacket,
        batch: &mut Batch,
    ) -> (r: Result<(), DecodeError>)
        requires
            old(self)@.sequence.valid(),
        ensures
            final(self)@.sequence.valid(),
            match decoded {
                Ok(described) => {
                    &&& r is Ok
                    &&& final(self)@ == accepted(
                        old(self)@,
                        &described,
                        packet.received,
                        packet.bytes@,
                    )
                    &&& is_batch_of(
                        *final(batch),
                        old(self)@,
                        &described,
                        packet.received,
                        packet.bytes@,
                    )
                },
                Err(error) => {
                    &&& r == Err::<(), DecodeError>(error)
                    &&& final(self)@ == refused(old(self)@, packet.received, packet.bytes@)
                    &&& *final(batch) == *old(batch)
                },
            },
    {
        match decoded {
            Ok(described) => self.decode_into(Ok(&described), packet, batch),
            Err(error) => self.decode_into(Err(error), packet, batch),
        }
    }

    /// Lines about what the sequence counts said was lost, and about a definition that does not
    /// describe a whole packet. Drains the queue.
    pub fn take_events(&mut self) -> (r: Vec<Event>)
        ensures
            event_views(r@) == old(self)@.events,
            final(self)@ == (DecoderView { events: Seq::empty(), ..old(self)@ }),
    {
        let mut taken: Vec<Event> = Vec::new();
        core::mem::swap(&mut self.events, &mut taken);
        assert(self@.events =~= Seq::empty());
        taken
    }

    /// Forgets every sequence count, for a source that restarted.
    ///
    /// Keeps the trailing-bit warnings: those are facts about the definition.
    pub fn reset(&mut self)
        requires
            old(self)@.sequence.valid(),
        ensures
            final(self)@.sequence.valid(),
            final(self)@ == restarted(old(self)@),
    {
        self.sequence.reset();
        assert(self@.events =~= old(self)@.events);
    }

    /// Reads the primary header, files the count, and says what it cost.
    fn observe_header(&mut self, packet: &RawPacket) -> (r: Header)
        requires
            old(self)@.sequence.valid(),
        ensures
            final(self)@.sequence.valid(),
            final(self)@ == header_filed(old(self)@, packet.received, packet.bytes@),
            r == header_of(old(self)@, packet.bytes@),
    {
        let ghost before = self@;
        self.stats.touch(packet.received.unix_nanos());
        let header = match packet.header() {
            Some(header) => header,
            None => {
                assert(self@.events =~= before.events);
                return Header { apid: 0, sequence: 0, gap: false };
            },
        };
        let apid: u16 = header.apid;
        let sequence: u16 = header.sequence_count;
        let missed: u16 = self.sequence.observe(apid, sequence);
        if missed > 0 {
            self.stats.add(Counter::SequenceGaps, 1);
            self.stats.add(Counter::SequenceMissing, missed as u64);
        }
        let report = self.sequence.note(apid, missed);
        let line = Self::gap_event(report, apid, sequence, missed, packet.received);
        match line {
            Some(event) => self.events.push(event),
            None => {},
        }
        assert(self@.events =~= header_filed(before, packet.received, packet.bytes@).events);
        Header { apid, sequence, gap: missed > 0 }
    }

    /// The line a report becomes.
    fn gap_event(
        report: GapReport,
        apid: u16,
        sequence: u16,
        missed: u16,
        received: Utc,
    ) -> (r: Option<Event>)
        ensures
            r is Some <==> gap_line(report, apid, sequence, missed, received) is Some,
            r matches Some(event) ==> gap_line(report, apid, sequence, missed, received) == Some(
                event@,
            ),
    {
        let mut message: String = "APID ".to_owned();
        push_decimal(&mut message, apid as u64);
        match report {
            GapReport::Quiet => None,
            GapReport::First => {
                message.append(": ");
                push_decimal(&mut message, missed as u64);
                message.append(" packet(s) missing before sequence count ");
                push_decimal(&mut message, sequence as u64);
                Some(Event::at(received, Severity::Warning, SOURCE, message))
            },
            GapReport::Running { gaps, missing, recovered } => if recovered {
                message.append(": contiguous again after ");
                push_decimal(&mut message, gaps as u64);
                message.append(" gap(s), ");
                push_decimal(&mut message, missing as u64);
                message.append(" packet(s) missing in all");
                Some(Event::at(received, Severity::Info, SOURCE, message))
            } else {
                message.append(": ");
                push_decimal(&mut message, gaps as u64);
                message.append(" gaps so far, ");
                push_decimal(&mut message, missing as u64);
                message.append(" packet(s) missing");
                Some(Event::at(received, Severity::Warning, SOURCE, message))
            },
        }
    }

    /// Fills `batch` from a packet that decoded.
    fn fill(&mut self, decoded: &DecodedPacket, packet: &RawPacket, header: Header, batch: &mut Batch)
        requires
            old(self)@.sequence.valid(),
        ensures
            final(self)@.sequence.valid(),
            final(self)@ == ({
                let checked = trailing_checked(old(self)@, decoded, packet.received);
                DecoderView { stats: checked.stats.added(Counter::PacketsDecoded, 1), ..checked }
            }),
            final(batch).container == decoded.container,
            final(batch).received == packet.received,
            final(batch).spacecraft == spacecraft_time(old(self)@.clock, decoded),
            final(batch).apid == header.apid,
            final(batch).sequence == header.sequence,
            final(batch).sequence_gap == header.gap,
            sample_views(final(batch).samples@) == projected(
                decoded.values@,
                final(batch).placed_at(),
            ),
    {
        let spacecraft: Option<Utc> = match self.clock {
            Some(clock) => clock.read(decoded),
            None => None,
        };
        batch.container = decoded.container;
        batch.received = packet.received;
        batch.spacecraft = spacecraft;
        batch.apid = header.apid;
        batch.sequence = header.sequence;
        batch.sequence_gap = header.gap;
        let time: Utc = batch.time();
        project(decoded, time, &mut batch.samples);
        self.warn_trailing(decoded, packet.received);
        let ghost checked = self@;
        self.stats.add(Counter::PacketsDecoded, 1);
        assert(self@.events =~= checked.events);
    }

    /// Warns once per container that the definition did not describe the whole packet.
    ///
    /// Not an error: a secondary header the definition omits is a normal reason for it. The
    /// other reason is that the definition is a revision behind the spacecraft, and that one is
    /// silently wrong.
    fn warn_trailing(&mut self, decoded: &DecodedPacket, received: Utc)
        requires
            old(self)@.sequence.valid(),
        ensures
            final(self)@.sequence.valid(),
            final(self)@ == trailing_checked(old(self)@, decoded, received),
    {
        let ghost before = self@;
        if decoded.trailing_bits <= 0 {
            return;
        }
        while self.warned.len() < decoded.container_count
            invariant
                self@.clock == before.clock,
                self@.sequence == before.sequence,
                self@.stats == before.stats,
                self@.events == before.events,
                before.warned.len() <= self.warned@.len(),
                self.warned@.len() <= decoded.container_count || self.warned@ == before.warned,
                self.warned@ == before.warned + Seq::new(
                    (self.warned@.len() - before.warned.len()) as nat,
                    |i: int| false,
                ),
            decreases decoded.container_count - self.warned@.len(),
        {
            self.warned.push(false);
            assert(self.warned@ =~= before.warned + Seq::new(
                (self.warned@.len() - before.warned.len()) as nat,
                |i: int| false,
            ));
            assert(self@.events =~= before.events);
        }
        let ghost places = warned_places(before.warned, decoded.container_count as nat);
        assert(self.warned@ =~= places);
        let index: usize = decoded.container.index();
        if index >= self.warned.len() {
            return;
        }
        if self.warned[index] {
            return;
        }
        self.warned[index] = true;
        let mut message: String = match &decoded.container_name {
            Some(name) => name.clone(),
            None => "?".to_owned(),
        };
        message.append(": ");
        push_signed(&mut message, decoded.trailing_bits);
        message.append(" bit(s) of the packet are not described by the definition");
        let event = Event::at(received, Severity::Warning, SOURCE, message);
        self.events.push(event);
        assert(self@.events =~= trailing_checked(before, decoded, received).events);
    }
}

/// A decoder whose source has restarted.
pub open spec fn restarted(decoder: DecoderView) -> DecoderView {
    DecoderView {
        sequence: TrackerView {
            gaps: decoder.sequence.gaps,
            missing: decoder.sequence.missing,
            ..fresh_tracker()
        },
        ..decoder
    }
}

/// Every packet is counted once, as described or as refused, and the arrival of either is the
/// last packet.
pub proof fn every_packet_is_counted_once(
    decoder: DecoderView,
    decoded: &DecodedPacket,
    received: Utc,
    bytes: Seq<u8>,
)
    ensures
        accepted(decoder, decoded, received, bytes).stats.packets_decoded
            == crate::stats::wrapped_sum(decoder.stats.packets_decoded, 1),
        accepted(decoder, decoded, received, bytes).stats.packets_rejected
            == decoder.stats.packets_rejected,
        refused(decoder, received, bytes).stats.packets_rejected == crate::stats::wrapped_sum(
            decoder.stats.packets_rejected,
            1,
        ),
        refused(decoder, received, bytes).stats.packets_decoded == decoder.stats.packets_decoded,
        accepted(decoder, decoded, received, bytes).stats.last_packet == received.0,
        refused(decoder, received, bytes).stats.last_packet == received.0,
{
}

/// A packet too short to have a header files nothing: no count, no gap and no line.
pub proof fn a_stump_files_nothing(decoder: DecoderView, received: Utc, bytes: Seq<u8>)
    requires
        bytes.len() < 6,
    ensures
        refused(decoder, received, bytes).sequence == decoder.sequence,
        refused(decoder, received, bytes).events == decoder.events,
        refused(decoder, received, bytes).stats.sequence_gaps == decoder.stats.sequence_gaps,
        refused(decoder, received, bytes).stats.sequence_missing == decoder.stats.sequence_missing,
{
}

/// A container is warned of once: after a packet with trailing bits, another of the same
/// container says nothing more.
pub proof fn a_container_is_warned_of_once(
    decoder: DecoderView,
    decoded: &DecodedPacket,
    first: Utc,
    second: Utc,
)
    ensures
        trailing_checked(trailing_checked(decoder, decoded, first), decoded, second)
            == trailing_checked(decoder, decoded, first),
{
    let once = trailing_checked(decoder, decoded, first);
    assert(trailing_checked(once, decoded, second) =~= once);
}

/// A restart keeps the warnings and the totals, and forgets the counts.
pub proof fn a_restart_keeps_the_warnings(decoder: DecoderView, apid: u16, sequence: u16)
    ensures
        restarted(decoder).warned == decoder.warned,
        restarted(decoder).stats == decoder.stats,
        restarted(decoder).sequence.gaps == decoder.sequence.gaps,
        missed_before(restarted(decoder).sequence, apid, sequence) == 0,
{
}

/// A packet is one instant: every sample of it is placed where the packet is, and without a
/// spacecraft clock that is where the ground received it.
pub proof fn a_packet_is_one_instant(
    batch: Batch,
    decoder: DecoderView,
    decoded: &DecodedPacket,
    received: Utc,
    bytes: Seq<u8>,
)
    requires
        is_batch_of(batch, decoder, decoded, received, bytes),
    ensures
        forall|i: int|
            0 <= i < batch.samples@.len() ==> (#[trigger] batch.samples@[i]).time
                == batch.placed_at(),
        decoder.clock is None ==> batch.placed_at() == received,
{
    let views = sample_views(batch.samples@);
    assert forall|i: int| 0 <= i < batch.samples@.len() implies (
    #[trigger] batch.samples@[i]).time == batch.placed_at() by {
        assert(views[i] == batch.samples@[i]@);
        assert(views.len() == decoded.values@.len());
    }
}

} // verus!
