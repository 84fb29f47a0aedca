//! What the octets of a packet promise.

use vstd::prelude::*;

use crate::float::Float64;
use crate::packet::{apid_of, count_of, declared_len};
use crate::ratio::{quotient, seconds_of};
use crate::stats::{wrapped_sum, Counter, LinkStats, StatsSnapshot};
use crate::time::Utc;

verus! {

/// An APID is what the low three bits of the first octet and the second one spell, whatever the
/// bits above them say: each of 2048 is read as itself.
pub proof fn an_apid_is_eleven_bits(bytes: Seq<u8>, apid: int, above: int)
    requires
        bytes.len() >= 6,
        0 <= apid < 2048,
        0 <= above < 32,
        bytes[0] == above * 8 + apid / 256,
        bytes[1] == apid % 256,
    ensures
        apid_of(bytes) == apid,
{
}

/// A sequence count is what the low six bits of the third octet and the fourth one spell, whatever
/// the two flags above them say.
pub proof fn a_count_is_fourteen_bits(bytes: Seq<u8>, count: int, flags: int)
    requires
        bytes.len() >= 6,
        0 <= count < 16_384,
        0 <= flags < 4,
        bytes[2] == flags * 64 + count / 256,
        bytes[3] == count % 256,
    ensures
        count_of(bytes) == count,
{
}

/// A packet is six octets of header and one more than its length field says.
pub proof fn a_packet_says_how_long_it_is(bytes: Seq<u8>, data: int)
    requires
        bytes.len() >= 6,
        1 <= data <= 65_536,
        bytes[4] == (data - 1) / 256,
        bytes[5] == (data - 1) % 256,
    ensures
        declared_len(bytes) == 6 + data,
{
}

/// A header has nothing behind its sixth octet: two packets that start with the same six have the
/// same APID, count and length.
pub proof fn a_header_is_six_octets(a: Seq<u8>, b: Seq<u8>)
    requires
        a.len() >= 6,
        b.len() >= 6,
        a.take(6) == b.take(6),
    ensures
        apid_of(a) == apid_of(b),
        count_of(a) == count_of(b),
        declared_len(a) == declared_len(b),
{
    assert forall|i: int| 0 <= i < 6 implies (#[trigger] a[i]) == b[i] by {
        assert(a.take(6)[i] == a[i]);
        assert(b.take(6)[i] == b[i]);
    }
}

/// A counter goes up by what is added to it, and no other counter does: around the top only where
/// the sum does not fit.
pub proof fn a_counter_goes_up_by_what_is_added(
    stats: LinkStats,
    counter: Counter,
    other: Counter,
    amount: u64,
)
    ensures
        stats.count(counter) + amount <= u64::MAX ==> stats.added(counter, amount).count(counter)
            == stats.count(counter) + amount,
        stats.count(counter) + amount > u64::MAX ==> stats.added(counter, amount).count(counter)
            == stats.count(counter) + amount - 0x1_0000_0000_0000_0000,
        other != counter ==> stats.added(counter, amount).count(other) == stats.count(other),
        stats.added(counter, amount).last_packet == stats.last_packet,
        wrapped_sum(u64::MAX, 1) == 0,
{
}

/// Each counter is a field of its own.
pub proof fn each_counter_is_its_own_field(stats: LinkStats)
    ensures
        stats.count(Counter::BytesIn) == stats.bytes_in,
        stats.count(Counter::SyncFound) == stats.sync_found,
        stats.count(Counter::SyncLost) == stats.sync_lost,
        stats.count(Counter::FramesSeen) == stats.frames_seen,
        stats.count(Counter::FramesOk) == stats.frames_ok,
        stats.count(Counter::FramesDropped) == stats.frames_dropped,
        stats.count(Counter::RsCorrected) == stats.rs_corrected,
        stats.count(Counter::RsSymbols) == stats.rs_symbols,
        stats.count(Counter::RsUncorrectable) == stats.rs_uncorrectable,
        stats.count(Counter::CrcFailures) == stats.crc_failures,
        stats.count(Counter::IdleFrames) == stats.idle_frames,
        stats.count(Counter::IdlePackets) == stats.idle_packets,
        stats.count(Counter::PacketsIn) == stats.packets_in,
        stats.count(Counter::PacketsDecoded) == stats.packets_decoded,
        stats.count(Counter::PacketsRejected) == stats.packets_rejected,
        stats.count(Counter::PacketsLost) == stats.packets_lost,
        stats.count(Counter::SequenceGaps) == stats.sequence_gaps,
        stats.count(Counter::SequenceMissing) == stats.sequence_missing,
{
}

/// The loss is none where no frame was dropped or none was seen, and does not depend on anything but
/// the frames that were seen and dropped.
pub proof fn a_loss_is_of_the_frames_seen(a: StatsSnapshot, b: StatsSnapshot)
    ensures
        a.frames_seen == 0 ==> a.loss() == (Float64 { bits: 0 }),
        a.frames_seen == b.frames_seen && a.frames_dropped == b.frames_dropped ==> a.loss()
            == b.loss(),
        a.frames_seen > 0 ==> a.loss() == quotient(
            a.count(Counter::FramesDropped) as nat,
            a.count(Counter::FramesSeen) as nat,
        ),
{
}

/// A link that has never seen a packet is not live; one that has is for as long as it is told after
/// the last one, and no longer.
pub proof fn a_link_is_live_after_a_packet(snapshot: StatsSnapshot, now: Utc, seconds: Float64)
    ensures
        snapshot.last_packet is None ==> !snapshot.live(now, seconds),
        snapshot.last_packet matches Some(last) ==> (i64::MIN <= now.nanos() - last.nanos()
            <= i64::MAX ==> (snapshot.live(now, seconds) <==> seconds_of(
            now.nanos() - last.nanos(),
        ).at_most(seconds))),
{
}

} // verus!
