//! What decoding promises of a packet.

use vstd::prelude::*;

use crate::decode::{
    accepted, both_sides, first_gap_text, gap_line, header_filed, header_of, is_batch_of,
    projected, recovered_text, refused, restarted, running_text, trailing_checked, trailing_text,
    DecoderView,
};
use crate::decoded::{DecodedPacket, DecodedValue};
use crate::event::Severity;
use crate::laws::text::shows;
use crate::packet::{apid_of, count_of};
use crate::sample::Batch;
use crate::sequence::{saturated_sum, saturated_sum_u32, GapReport};
use crate::stats::{Counter, LinkStats};
use crate::text::{decimal, signed_decimal};
use crate::time::Utc;

verus! {

/// Each value of a packet is a sample: of its own parameter, with the bits as they were and the
/// value they stand for, at the packet's time, in the order of the packet.
pub proof fn each_value_is_a_sample(values: Seq<DecodedValue>, time: Utc, place: int)
    ensures
        projected(values, time).len() == values.len(),
        0 <= place < values.len() ==> projected(values, time)[place].parameter
            == values[place].parameter && projected(values, time)[place].time == time && projected(
            values,
            time,
        )[place].raw == values[place].raw@ && projected(values, time)[place].eng
            == values[place].eng@,
{
}

/// A batch carries what the packet's header says, the container that matched, the ground stamp, and
/// one sample for each value. Its gap is one exactly where the count neither follows the last one of
/// its APID nor repeats it; the first packet of an APID and a stump have none.
pub proof fn a_batch_is_its_packet(
    batch: Batch,
    decoder: DecoderView,
    decoded: &DecodedPacket,
    received: Utc,
    bytes: Seq<u8>,
)
    requires
        is_batch_of(batch, decoder, decoded, received, bytes),
        decoder.sequence.valid(),
    ensures
        batch.container == decoded.container,
        batch.received == received,
        batch.samples@.len() == decoded.values@.len(),
        bytes.len() >= 6 ==> batch.apid == apid_of(bytes) && batch.sequence == count_of(bytes),
        bytes.len() < 6 ==> batch.apid == 0 && batch.sequence == 0 && !batch.sequence_gap,
        bytes.len() >= 6 ==> match decoder.sequence.last[apid_of(bytes)] {
            Some(last) => batch.sequence_gap <==> count_of(bytes) != last && count_of(bytes) != (last
                + 1) % 16_384,
            None => !batch.sequence_gap,
        },
        forall|i: int|
            0 <= i < batch.samples@.len() ==> (#[trigger] batch.samples@[i])@.parameter
                == decoded.values@[i].parameter && batch.samples@[i]@.raw == decoded.values@[i].raw@
                && batch.samples@[i]@.eng == decoded.values@[i].eng@,
        decoder.clock is None ==> batch.spacecraft is None,
        decoder.clock matches Some(clock) ==> batch.spacecraft == clock.reading(decoded),
{
    let views = crate::sample::sample_views(batch.samples@);
    assert(views.len() == batch.samples@.len());
    assert forall|i: int| 0 <= i < batch.samples@.len() implies (
    #[trigger] batch.samples@[i])@.parameter == decoded.values@[i].parameter
        && batch.samples@[i]@.raw == decoded.values@[i].raw@ && batch.samples@[i]@.eng
        == decoded.values@[i].eng@ by {
        assert(views[i] == batch.samples@[i]@);
    }
    if bytes.len() >= 6 {
        let apid = apid_of(bytes);
        assert(0 <= apid < 2048);
        assert(0 <= count_of(bytes) < 16_384);
        if let Some(last) = decoder.sequence.last[apid] {
            assert(last < 16_384);
            let current = count_of(bytes);
            if current == (last + 1) % 16_384 {
                if last == 16_383 {
                    assert(current - last - 1 == -16_384);
                } else {
                    assert(current - last - 1 == 0);
                }
            } else if current > last {
                assert(0 < current - last - 1 < 16_384);
            } else if current < last {
                assert(-16_384 < current - last - 1 < 0);
                assert((current - last - 1) % 16_384 == current - last - 1 + 16_384);
            }
        }
    }
}

/// A packet that is accepted is one decoded and none rejected, one that is refused the other way
/// round; either way it is the last to arrive, and where its count skips some, that is one gap and
/// as many missing. Nothing else is counted.
pub proof fn a_packet_is_counted_once(
    decoder: DecoderView,
    decoded: &DecodedPacket,
    received: Utc,
    bytes: Seq<u8>,
    other: Counter,
)
    requires
        decoder.sequence.valid(),
        decoder.stats.packets_decoded < u64::MAX,
        decoder.stats.packets_rejected < u64::MAX,
        decoder.stats.sequence_gaps < u64::MAX,
        decoder.stats.sequence_missing < u64::MAX - 16_384,
    ensures
        ({
            let before = decoder.stats;
            let taken = accepted(decoder, decoded, received, bytes).stats;
            let not = refused(decoder, received, bytes).stats;
            let filed = header_filed(decoder, received, bytes).stats;
            &&& taken.packets_decoded == before.packets_decoded + 1
            &&& taken.packets_rejected == before.packets_rejected
            &&& not.packets_rejected == before.packets_rejected + 1
            &&& not.packets_decoded == before.packets_decoded
            &&& taken.last_packet == received.0
            &&& not.last_packet == received.0
            &&& header_of(decoder, bytes).gap ==> filed.sequence_gaps == before.sequence_gaps + 1
            &&& !header_of(decoder, bytes).gap ==> filed.sequence_gaps == before.sequence_gaps
                && filed.sequence_missing == before.sequence_missing
            &&& taken.sequence_gaps == filed.sequence_gaps
            &&& not.sequence_gaps == filed.sequence_gaps
            &&& taken.sequence_missing == filed.sequence_missing
            &&& not.sequence_missing == filed.sequence_missing
            &&& other != Counter::PacketsDecoded && other != Counter::PacketsRejected && other
                != Counter::SequenceGaps && other != Counter::SequenceMissing ==> taken.count(other)
                == before.count(other) && not.count(other) == before.count(other)
        }),
{
    crate::laws::packet::each_counter_is_its_own_field(decoder.stats);
}

/// A count that skips some packets is counted as that many missing, and no more.
pub proof fn a_gap_is_counted_as_long_as_it_is(
    decoder: DecoderView,
    received: Utc,
    bytes: Seq<u8>,
    last: u16,
    skipped: int,
)
    requires
        decoder.sequence.valid(),
        bytes.len() >= 6,
        decoder.sequence.last[apid_of(bytes)] == Some(last),
        0 <= skipped < 16_383,
        count_of(bytes) == (last + 1 + skipped) % 16_384,
        decoder.stats.sequence_missing < u64::MAX - 16_384,
    ensures
        header_filed(decoder, received, bytes).stats.sequence_missing
            == decoder.stats.sequence_missing + skipped,
        header_filed(decoder, received, bytes).sequence.last[apid_of(bytes)] == Some(
            count_of(bytes) as u16,
        ),
        header_of(decoder, bytes).gap <==> skipped > 0,
{
    let apid = apid_of(bytes);
    assert(0 <= apid < 2048);
    assert(0 <= count_of(bytes) < 16_384);
    assert(last < 16_384);
    let current = count_of(bytes);
    if last + 1 + skipped < 16_384 {
        assert(current - last - 1 == skipped);
    } else {
        assert(current == last + 1 + skipped - 16_384);
        assert(current - last - 1 == skipped - 16_384);
        assert((skipped - 16_384) % 16_384 == skipped);
    }
}

/// A first gap is a warning that names the APID, how many packets are missing and the count it was
/// noticed at; a run that goes on is one that says how many gaps and packets there were, and its
/// end is no warning. Nothing is said of a packet that is quiet.
pub proof fn a_gap_is_said(
    report: GapReport,
    apid: u16,
    sequence: u16,
    missed: u16,
    received: Utc,
)
    ensures
        match report {
            GapReport::Quiet => gap_line(report, apid, sequence, missed, received) is None,
            GapReport::First => gap_line(report, apid, sequence, missed, received) matches Some(
                line,
            ) && line.time == received && line.severity == Severity::Warning && line.source
                == "decode"@ && line.message == first_gap_text(apid, missed, sequence),
            GapReport::Running { gaps, missing, recovered } => gap_line(
                report,
                apid,
                sequence,
                missed,
                received,
            ) matches Some(line) && line.time == received && line.source == "decode"@ && (recovered
                ==> line.severity == Severity::Info && line.message == recovered_text(
                apid,
                gaps,
                missing,
            )) && (!recovered ==> line.severity == Severity::Warning && line.message
                == running_text(apid, gaps, missing)),
        },
{
}

/// What is said of gaps shows every number there is to them.
pub proof fn what_is_said_of_gaps_shows_the_numbers(
    apid: u16,
    missed: u16,
    sequence: u16,
    gaps: u32,
    missing: u32,
)
    ensures
        shows(first_gap_text(apid, missed, sequence), "APID "@, decimal(apid as nat), ": "@),
        shows(
            first_gap_text(apid, missed, sequence),
            ": "@,
            decimal(missed as nat),
            " packet(s) missing before sequence count "@,
        ),
        shows(
            first_gap_text(apid, missed, sequence),
            " packet(s) missing before sequence count "@,
            decimal(sequence as nat),
            Seq::empty(),
        ),
        shows(recovered_text(apid, gaps, missing), "APID "@, decimal(apid as nat), ": contiguous again after "@),
        shows(
            recovered_text(apid, gaps, missing),
            ": contiguous again after "@,
            decimal(gaps as nat),
            " gap(s), "@,
        ),
        shows(
            recovered_text(apid, gaps, missing),
            " gap(s), "@,
            decimal(missing as nat),
            " packet(s) missing in all"@,
        ),
        shows(running_text(apid, gaps, missing), "APID "@, decimal(apid as nat), ": "@),
        shows(running_text(apid, gaps, missing), ": "@, decimal(gaps as nat), " gaps so far, "@),
        shows(
            running_text(apid, gaps, missing),
            " gaps so far, "@,
            decimal(missing as nat),
            " packet(s) missing"@,
        ),
{
    let none = Seq::<char>::empty();
    let (a, m, s, g, n) = (
        decimal(apid as nat),
        decimal(missed as nat),
        decimal(sequence as nat),
        decimal(gaps as nat),
        decimal(missing as nat),
    );
    let first = first_gap_text(apid, missed, sequence);
    let before = " packet(s) missing before sequence count "@;
    assert(first =~= none + "APID "@ + a + ": "@ + (m + before + s));
    assert(first =~= ("APID "@ + a) + ": "@ + m + before + s);
    assert(first =~= ("APID "@ + a + ": "@ + m) + before + s + none + none);
    let again = recovered_text(apid, gaps, missing);
    let (x, y, z) = (": contiguous again after "@, " gap(s), "@, " packet(s) missing in all"@);
    assert(again =~= none + "APID "@ + a + x + (g + y + n + z));
    assert(again =~= ("APID "@ + a) + x + g + y + (n + z));
    assert(again =~= ("APID "@ + a + x + g) + y + n + z + none);
    let running = running_text(apid, gaps, missing);
    let (u, v) = (" gaps so far, "@, " packet(s) missing"@);
    assert(running =~= none + "APID "@ + a + ": "@ + (g + u + n + v));
    assert(running =~= ("APID "@ + a) + ": "@ + g + u + (n + v));
    assert(running =~= ("APID "@ + a + ": "@ + g) + u + n + v + none);
}

/// Bits that the definition does not describe are warned of once for each container: by one line
/// that names the container and how many there are. A packet without any, or one that is described
/// to beyond its end, says nothing and marks nothing; other containers are left as they are.
pub proof fn undescribed_bits_are_warned_of(
    decoder: DecoderView,
    decoded: &DecodedPacket,
    received: Utc,
    other: int,
)
    ensures
        ({
            let after = trailing_checked(decoder, decoded, received);
            let place = decoded.container.number as int;
            let known = place < decoder.warned.len() || place < decoded.container_count;
            let warned = place < decoder.warned.len() && decoder.warned[place];
            &&& decoded.trailing_bits <= 0 ==> after == decoder
            &&& decoded.trailing_bits > 0 && known && !warned ==> {
                &&& after.events.len() == decoder.events.len() + 1
                &&& after.events.drop_last() == decoder.events
                &&& after.events.last().time == received
                &&& after.events.last().severity == Severity::Warning
                &&& after.events.last().source == "decode"@
                &&& decoded.container_name matches Some(name) ==> after.events.last().message
                    == trailing_text(name@, decoded.trailing_bits)
                &&& place < after.warned.len() && after.warned[place]
            }
            &&& decoded.trailing_bits > 0 && (!known || warned) ==> after.events == decoder.events
            &&& 0 <= other < decoder.warned.len() && other != place ==> other < after.warned.len()
                && after.warned[other] == decoder.warned[other]
            &&& after.stats == decoder.stats
            &&& after.sequence == decoder.sequence
            &&& after.clock == decoder.clock
        }),
{
    let after = trailing_checked(decoder, decoded, received);
    if after.events.len() == decoder.events.len() + 1 {
        assert(after.events.drop_last() =~= decoder.events);
    }
}

/// What is said of bits that are not described shows the container and how many there are.
pub proof fn what_is_said_of_undescribed_bits(name: Seq<char>, bits: i64)
    ensures
        shows(
            trailing_text(name, bits),
            ": "@,
            signed_decimal(bits as int),
            " bit(s) of the packet are not described by the definition"@,
        ),
        trailing_text(name, bits).take(name.len() as int) == name,
{
    let none = Seq::<char>::empty();
    let text = trailing_text(name, bits);
    let end = " bit(s) of the packet are not described by the definition"@;
    assert(text =~= name + ": "@ + signed_decimal(bits as int) + end + none);
    assert(text.take(name.len() as int) =~= name);
}

/// The counters of the two sides are put together without adding any up: what the decode side
/// counts comes from it, everything else from the link, and the last packet from whichever knows
/// of one, the decode side first.
pub proof fn both_sides_are_counted(link: LinkStats, decoded: LinkStats, counter: Counter)
    ensures
        both_sides(link, decoded).count(counter) == (if counter == Counter::PacketsDecoded || counter
            == Counter::PacketsRejected || counter == Counter::SequenceGaps || counter
            == Counter::SequenceMissing {
            decoded.count(counter)
        } else {
            link.count(counter)
        }),
        decoded.last_packet != i64::MIN ==> both_sides(link, decoded).last_packet
            == decoded.last_packet,
        decoded.last_packet == i64::MIN ==> both_sides(link, decoded).last_packet
            == link.last_packet,
{
}

/// A sum that fits is the sum; one that does not is the largest there is.
pub proof fn sums_stop_at_the_largest(count: u64, small: u32, amount: int)
    requires
        amount >= 0,
    ensures
        count + amount <= u64::MAX ==> saturated_sum(count, amount) == count + amount,
        count + amount > u64::MAX ==> saturated_sum(count, amount) == u64::MAX,
        small + amount <= u32::MAX ==> saturated_sum_u32(small, amount) == small + amount,
        small + amount > u32::MAX ==> saturated_sum_u32(small, amount) == u32::MAX,
{
}

/// A packet that skips some where none of its APID was skipped before is said to, in one line behind
/// the others: with what is missing, and at which count. One in order there says nothing, and a
/// stump neither says nor counts anything but that it arrived.
pub proof fn the_first_gap_of_an_apid_is_logged(
    decoder: DecoderView,
    received: Utc,
    bytes: Seq<u8>,
    last: u16,
    skipped: int,
)
    requires
        decoder.sequence.valid(),
    ensures
        bytes.len() < 6 ==> header_filed(decoder, received, bytes).events == decoder.events
            && header_filed(decoder, received, bytes).sequence == decoder.sequence,
        bytes.len() >= 6 && decoder.sequence.last[apid_of(bytes)] == Some(last) && 0 <= skipped
            < 16_383 && count_of(bytes) == (last + 1 + skipped) % 16_384
            && decoder.sequence.burst[apid_of(bytes)].gaps == 0 ==> ({
            let events = header_filed(decoder, received, bytes).events;
            &&& skipped == 0 ==> events == decoder.events
            &&& skipped > 0 ==> events.len() == decoder.events.len() + 1 && events.drop_last()
                == decoder.events && events.last().severity == Severity::Warning
                && events.last().source == "decode"@ && events.last().time == received
                && events.last().message == first_gap_text(
                apid_of(bytes) as u16,
                skipped as u16,
                count_of(bytes) as u16,
            )
        }),
        header_filed(decoder, received, bytes).warned == decoder.warned,
        header_filed(decoder, received, bytes).clock == decoder.clock,
{
    if bytes.len() >= 6 && decoder.sequence.last[apid_of(bytes)] == Some(last) && 0 <= skipped
        < 16_383 && count_of(bytes) == (last + 1 + skipped) % 16_384 {
        let current = count_of(bytes);
        assert(0 <= apid_of(bytes) < 2048);
        assert(0 <= current < 16_384);
        assert(last < 16_384);
        if last + 1 + skipped < 16_384 {
            assert(current - last - 1 == skipped);
        } else {
            assert(current - last - 1 == skipped - 16_384);
            assert((skipped - 16_384) % 16_384 == skipped);
        }
        let events = header_filed(decoder, received, bytes).events;
        if skipped > 0 && decoder.sequence.burst[apid_of(bytes)].gaps == 0 {
            assert(events.drop_last() =~= decoder.events);
        }
    }
}

/// A restart forgets every count and every run of gaps, and nothing else: the totals, the counters,
/// the lines and what was warned of stay.
pub proof fn a_restart_forgets_only_the_counts(decoder: DecoderView, apid: int)
    requires
        0 <= apid < 2048,
    ensures
        ({
            let after = restarted(decoder);
            &&& after.sequence.last[apid] is None
            &&& after.sequence.burst[apid].gaps == 0 && after.sequence.burst[apid].missing == 0
                && after.sequence.burst[apid].healthy == 0
            &&& after.sequence.gaps == decoder.sequence.gaps
            &&& after.sequence.missing == decoder.sequence.missing
            &&& after.stats == decoder.stats
            &&& after.events == decoder.events
            &&& after.warned == decoder.warned
            &&& after.clock == decoder.clock
        }),
{
}

/// What is accepted leaves behind what its header and its trailing bits do, and what is refused what
/// its header does.
pub proof fn a_packet_leaves_what_its_parts_do(
    decoder: DecoderView,
    decoded: &DecodedPacket,
    received: Utc,
    bytes: Seq<u8>,
)
    ensures
        ({
            let filed = header_filed(decoder, received, bytes);
            let checked = trailing_checked(filed, decoded, received);
            let taken = accepted(decoder, decoded, received, bytes);
            let not = refused(decoder, received, bytes);
            &&& taken.events == checked.events && taken.warned == checked.warned
            &&& taken.sequence == filed.sequence && not.sequence == filed.sequence
            &&& not.events == filed.events && not.warned == decoder.warned
            &&& taken.clock == decoder.clock && not.clock == decoder.clock
        }),
{
}

} // verus!
