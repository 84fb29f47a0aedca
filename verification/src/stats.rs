//! Link counters, written by the acquisition side and read by the interface.

use vstd::prelude::*;

use crate::float::Float64;
use crate::ratio::{quotient, seconds_of};
use crate::time::{clamped, Utc};

verus! {

/// Which counter of the link is meant.
#[derive(Clone, Copy, PartialEq, Eq, Debug, Structural)]
pub enum Counter {
    /// Bytes read from the source.
    BytesIn,
    /// Attached sync markers found.
    SyncFound,
    /// Times the synchroniser lost lock and went back to searching.
    SyncLost,
    /// Candidate frames handed to the frame decoder.
    FramesSeen,
    /// Frames that passed every check they were configured for.
    FramesOk,
    /// Frames dropped: uncorrectable, bad CRC, or a header that made no sense.
    FramesDropped,
    /// Frames the Reed-Solomon decoder repaired.
    RsCorrected,
    /// Symbols the Reed-Solomon decoder repaired, summed over frames.
    RsSymbols,
    /// Frames Reed-Solomon could not repair.
    RsUncorrectable,
    /// Frames whose trailing checksum did not match.
    CrcFailures,
    /// Idle frames seen and discarded.
    IdleFrames,
    /// Idle packets seen and discarded.
    IdlePackets,
    /// Packets pulled out of the frames, or read directly from the source.
    PacketsIn,
    /// Packets successfully decoded against the definition.
    PacketsDecoded,
    /// Packets the definition refused or did not describe.
    PacketsRejected,
    /// Packets thrown away because a partial packet could not be completed.
    PacketsLost,
    /// Gaps in a per-APID sequence count: how many times continuity broke.
    SequenceGaps,
    /// Packets the sequence counts say never arrived, summed over the gaps.
    SequenceMissing,
}

/// Counters describing what the link has done since the session started.
#[derive(Clone, Copy, Debug)]
pub struct LinkStats {
    /// Bytes read from the source.
    pub bytes_in: u64,
    /// Attached sync markers found.
    pub sync_found: u64,
    /// Times the synchroniser lost lock and went back to searching.
    pub sync_lost: u64,
    /// Candidate frames handed to the frame decoder.
    pub frames_seen: u64,
    /// Frames that passed every check they were configured for.
    pub frames_ok: u64,
    /// Frames dropped: uncorrectable, bad CRC, or a header that made no sense.
    pub frames_dropped: u64,
    /// Frames the Reed-Solomon decoder repaired.
    pub rs_corrected: u64,
    /// Symbols the Reed-Solomon decoder repaired, summed over frames.
    pub rs_symbols: u64,
    /// Frames Reed-Solomon could not repair.
    pub rs_uncorrectable: u64,
    /// Frames whose trailing checksum did not match.
    pub crc_failures: u64,
    /// Idle frames seen and discarded.
    pub idle_frames: u64,
    /// Idle packets seen and discarded.
    pub idle_packets: u64,
    /// Packets pulled out of the frames, or read directly from the source.
    pub packets_in: u64,
    /// Packets successfully decoded against the definition.
    pub packets_decoded: u64,
    /// Packets the definition refused or did not describe.
    pub packets_rejected: u64,
    /// Packets thrown away because a partial packet could not be completed.
    pub packets_lost: u64,
    /// Gaps in a per-APID sequence count: how many times continuity broke.
    pub sequence_gaps: u64,
    /// Packets the sequence counts say never arrived, summed over the gaps.
    pub sequence_missing: u64,
    /// Nanoseconds since the Unix epoch at the last packet, or `i64::MIN` for never.
    pub last_packet: i64,
}

/// A plain copy of [`LinkStats`], safe to hold across a draw.
#[derive(Clone, Copy, Debug)]
pub struct StatsSnapshot {
    /// Bytes read from the source.
    pub bytes_in: u64,
    /// Attached sync markers found.
    pub sync_found: u64,
    /// Times the synchroniser lost lock and went back to searching.
    pub sync_lost: u64,
    /// Candidate frames handed to the frame decoder.
    pub frames_seen: u64,
    /// Frames that passed every check they were configured for.
    pub frames_ok: u64,
    /// Frames dropped: uncorrectable, bad CRC, or a header that made no sense.
    pub frames_dropped: u64,
    /// Frames the Reed-Solomon decoder repaired.
    pub rs_corrected: u64,
    /// Symbols the Reed-Solomon decoder repaired, summed over frames.
    pub rs_symbols: u64,
    /// Frames Reed-Solomon could not repair.
    pub rs_uncorrectable: u64,
    /// Frames whose trailing checksum did not match.
    pub crc_failures: u64,
    /// Idle frames seen and discarded.
    pub idle_frames: u64,
    /// Idle packets seen and discarded.
    pub idle_packets: u64,
    /// Packets pulled out of the frames, or read directly from the source.
    pub packets_in: u64,
    /// Packets successfully decoded against the definition.
    pub packets_decoded: u64,
    /// Packets the definition refused or did not describe.
    pub packets_rejected: u64,
    /// Packets thrown away because a partial packet could not be completed.
    pub packets_lost: u64,
    /// Gaps in a per-APID sequence count: how many times continuity broke.
    pub sequence_gaps: u64,
    /// Packets the sequence counts say never arrived, summed over the gaps.
    pub sequence_missing: u64,
    /// When the last packet arrived.
    pub last_packet: Option<Utc>,
}

/// `amount` more than `count`, around the top.
pub open spec fn wrapped_sum(count: u64, amount: u64) -> u64 {
    ((count + amount) % 0x1_0000_0000_0000_0000) as u64
}

impl LinkStats {
    /// The value of one counter.
    pub open spec fn count(self, counter: Counter) -> u64 {
        match counter {
            Counter::BytesIn => self.bytes_in,
            Counter::SyncFound => self.sync_found,
            Counter::SyncLost => self.sync_lost,
            Counter::FramesSeen => self.frames_seen,
            Counter::FramesOk => self.frames_ok,
            Counter::FramesDropped => self.frames_dropped,
            Counter::RsCorrected => self.rs_corrected,
            Counter::RsSymbols => self.rs_symbols,
            Counter::RsUncorrectable => self.rs_uncorrectable,
            Counter::CrcFailures => self.crc_failures,
            Counter::IdleFrames => self.idle_frames,
            Counter::IdlePackets => self.idle_packets,
            Counter::PacketsIn => self.packets_in,
            Counter::PacketsDecoded => self.packets_decoded,
            Counter::PacketsRejected => self.packets_rejected,
            Counter::PacketsLost => self.packets_lost,
            Counter::SequenceGaps => self.sequence_gaps,
            Counter::SequenceMissing => self.sequence_missing,
        }
    }

    /// These counters with one of them replaced.
    pub open spec fn with_count(self, counter: Counter, value: u64) -> LinkStats {
        match counter {
            Counter::BytesIn => LinkStats { bytes_in: value, ..self },
            Counter::SyncFound => LinkStats { sync_found: value, ..self },
            Counter::SyncLost => LinkStats { sync_lost: value, ..self },
            Counter::FramesSeen => LinkStats { frames_seen: value, ..self },
            Counter::FramesOk => LinkStats { frames_ok: value, ..self },
            Counter::FramesDropped => LinkStats { frames_dropped: value, ..self },
            Counter::RsCorrected => LinkStats { rs_corrected: value, ..self },
            Counter::RsSymbols => LinkStats { rs_symbols: value, ..self },
            Counter::RsUncorrectable => LinkStats { rs_uncorrectable: value, ..self },
            Counter::CrcFailures => LinkStats { crc_failures: value, ..self },
            Counter::IdleFrames => LinkStats { idle_frames: value, ..self },
            Counter::IdlePackets => LinkStats { idle_packets: value, ..self },
            Counter::PacketsIn => LinkStats { packets_in: value, ..self },
            Counter::PacketsDecoded => LinkStats { packets_decoded: value, ..self },
            Counter::PacketsRejected => LinkStats { packets_rejected: value, ..self },
            Counter::PacketsLost => LinkStats { packets_lost: value, ..self },
            Counter::SequenceGaps => LinkStats { sequence_gaps: value, ..self },
            Counter::SequenceMissing => LinkStats { sequence_missing: value, ..self },
        }
    }

    /// These counters after `amount` more of one of them.
    pub open spec fn added(self, counter: Counter, amount: u64) -> LinkStats {
        self.with_count(counter, wrapped_sum(self.count(counter), amount))
    }

    /// A fresh set of counters, all zero.
    pub fn new() -> (r: Self)
        ensures
            forall|counter: Counter| #[trigger] r.count(counter) == 0,
            r.last_packet == i64::MIN,
    {
        LinkStats {
            bytes_in: 0,
            sync_found: 0,
            sync_lost: 0,
            frames_seen: 0,
            frames_ok: 0,
            frames_dropped: 0,
            rs_corrected: 0,
            rs_symbols: 0,
            rs_uncorrectable: 0,
            crc_failures: 0,
            idle_frames: 0,
            idle_packets: 0,
            packets_in: 0,
            packets_decoded: 0,
            packets_rejected: 0,
            packets_lost: 0,
            sequence_gaps: 0,
            sequence_missing: 0,
            last_packet: i64::MIN,
        }
    }

    /// Adds to a counter, around the top.
    pub fn add(&mut self, counter: Counter, amount: u64)
        ensures
            *final(self) == old(self).added(counter, amount),
    {
        match counter {
            Counter::BytesIn => self.bytes_in = self.bytes_in.wrapping_add(amount),
            Counter::SyncFound => self.sync_found = self.sync_found.wrapping_add(amount),
            Counter::SyncLost => self.sync_lost = self.sync_lost.wrapping_add(amount),
            Counter::FramesSeen => self.frames_seen = self.frames_seen.wrapping_add(amount),
            Counter::FramesOk => self.frames_ok = self.frames_ok.wrapping_add(amount),
            Counter::FramesDropped => self.frames_dropped = self.frames_dropped.wrapping_add(amount),
            Counter::RsCorrected => self.rs_corrected = self.rs_corrected.wrapping_add(amount),
            Counter::RsSymbols => self.rs_symbols = self.rs_symbols.wrapping_add(amount),
            Counter::RsUncorrectable => self.rs_uncorrectable = self.rs_uncorrectable.wrapping_add(amount),
            Counter::CrcFailures => self.crc_failures = self.crc_failures.wrapping_add(amount),
            Counter::IdleFrames => self.idle_frames = self.idle_frames.wrapping_add(amount),
            Counter::IdlePackets => self.idle_packets = self.idle_packets.wrapping_add(amount),
            Counter::PacketsIn => self.packets_in = self.packets_in.wrapping_add(amount),
            Counter::PacketsDecoded => self.packets_decoded = self.packets_decoded.wrapping_add(amount),
            Counter::PacketsRejected => self.packets_rejected = self.packets_rejected.wrapping_add(amount),
            Counter::PacketsLost => self.packets_lost = self.packets_lost.wrapping_add(amount),
            Counter::SequenceGaps => self.sequence_gaps = self.sequence_gaps.wrapping_add(amount),
            Counter::SequenceMissing => self.sequence_missing = self.sequence_missing.wrapping_add(amount),
        }
    }

    /// Records that a packet arrived at `nanos`.
    pub fn touch(&mut self, nanos: i64)
        ensures
            *final(self) == (LinkStats { last_packet: nanos, ..*old(self) }),
    {
        self.last_packet = nanos;
    }

    /// A copy for one frame of the interface.
    pub fn snapshot(&self) -> (r: StatsSnapshot)
        ensures
            forall|counter: Counter| #[trigger] r.count(counter) == self.count(counter),
            r.last_packet == (if self.last_packet == i64::MIN {
                None
            } else {
                Some(Utc(self.last_packet))
            }),
    {
        StatsSnapshot {
            bytes_in: self.bytes_in,
            sync_found: self.sync_found,
            sync_lost: self.sync_lost,
            frames_seen: self.frames_seen,
            frames_ok: self.frames_ok,
            frames_dropped: self.frames_dropped,
            rs_corrected: self.rs_corrected,
            rs_symbols: self.rs_symbols,
            rs_uncorrectable: self.rs_uncorrectable,
            crc_failures: self.crc_failures,
            idle_frames: self.idle_frames,
            idle_packets: self.idle_packets,
            packets_in: self.packets_in,
            packets_decoded: self.packets_decoded,
            packets_rejected: self.packets_rejected,
            packets_lost: self.packets_lost,
            sequence_gaps: self.sequence_gaps,
            sequence_missing: self.sequence_missing,
            last_packet: if self.last_packet == i64::MIN {
                None
            } else {
                Some(Utc::from_unix_nanos(self.last_packet))
            },
        }
    }
}

impl Default for LinkStats {
    /// Every field at zero: nothing counted, and the last packet at the epoch. A link that has
    /// never seen a packet is [`LinkStats::new`].
    fn default() -> (r: Self)
        ensures
            forall|counter: Counter| #[trigger] r.count(counter) == 0,
            r.last_packet == 0,
    {
        let fresh = LinkStats::new();
        let stats = LinkStats { last_packet: 0, ..fresh };
        assert forall|counter: Counter| #[trigger] stats.count(counter) == 0 by {
            assert(fresh.count(counter) == 0);
        }
        stats
    }
}

impl Default for StatsSnapshot {
    /// Nothing counted, and no packet ever.
    fn default() -> (r: Self)
        ensures
            forall|counter: Counter| #[trigger] r.count(counter) == 0,
            r.last_packet is None,
    {
        StatsSnapshot {
            bytes_in: 0,
            sync_found: 0,
            sync_lost: 0,
            frames_seen: 0,
            frames_ok: 0,
            frames_dropped: 0,
            rs_corrected: 0,
            rs_symbols: 0,
            rs_uncorrectable: 0,
            crc_failures: 0,
            idle_frames: 0,
            idle_packets: 0,
            packets_in: 0,
            packets_decoded: 0,
            packets_rejected: 0,
            packets_lost: 0,
            sequence_gaps: 0,
            sequence_missing: 0,
            last_packet: None,
        }
    }
}

impl StatsSnapshot {
    /// The value of one counter.
    pub open spec fn count(self, counter: Counter) -> u64 {
        match counter {
            Counter::BytesIn => self.bytes_in,
            Counter::SyncFound => self.sync_found,
            Counter::SyncLost => self.sync_lost,
            Counter::FramesSeen => self.frames_seen,
            Counter::FramesOk => self.frames_ok,
            Counter::FramesDropped => self.frames_dropped,
            Counter::RsCorrected => self.rs_corrected,
            Counter::RsSymbols => self.rs_symbols,
            Counter::RsUncorrectable => self.rs_uncorrectable,
            Counter::CrcFailures => self.crc_failures,
            Counter::IdleFrames => self.idle_frames,
            Counter::IdlePackets => self.idle_packets,
            Counter::PacketsIn => self.packets_in,
            Counter::PacketsDecoded => self.packets_decoded,
            Counter::PacketsRejected => self.packets_rejected,
            Counter::PacketsLost => self.packets_lost,
            Counter::SequenceGaps => self.sequence_gaps,
            Counter::SequenceMissing => self.sequence_missing,
        }
    }

    /// The share of frames that failed some check, of those that were seen.
    pub open spec fn loss(self) -> Float64 {
        if self.frames_seen == 0 {
            Float64 { bits: 0 }
        } else {
            quotient(self.frames_dropped as nat, self.frames_seen as nat)
        }
    }

    /// Whether the last packet is no longer ago than so many seconds.
    pub open spec fn live(self, now: Utc, seconds: Float64) -> bool {
        match self.last_packet {
            Some(last) => seconds_of(clamped(now.nanos() - last.nanos())).at_most(seconds),
            None => false,
        }
    }

    /// The share of frames that failed some check; zero when nothing has been seen, because a
    /// rate over no samples is not a loss.
    pub fn frame_loss(&self) -> (r: Float64)
        ensures
            r == self.loss(),
            r == (if self.frames_seen == 0 {
                Float64 { bits: 0 }
            } else {
                quotient(self.frames_dropped as nat, self.frames_seen as nat)
            }),
    {
        if self.frames_seen == 0 {
            Float64::from_bits(0)
        } else {
            Float64::ratio(self.frames_dropped, self.frames_seen)
        }
    }

    /// Whether anything has arrived in the last `seconds`.
    pub fn is_live(&self, now: Utc, seconds: Float64) -> (r: bool)
        ensures
            r == self.live(now, seconds),
            r == (match self.last_packet {
                Some(last) => seconds_of(clamped(now.nanos() - last.nanos())).at_most(seconds),
                None => false,
            }),
    {
        match self.last_packet {
            Some(last) => now.secs_since(last).le(seconds),
            None => false,
        }
    }
}

/// Counters are independent: adding to one leaves every other as it was, and no packet has
/// arrived by it.
pub proof fn counters_are_independent(stats: LinkStats, counter: Counter, other: Counter, amount: u64)
    ensures
        other != counter ==> stats.added(counter, amount).count(other) == stats.count(other),
        stats.added(counter, amount).count(counter) == wrapped_sum(stats.count(counter), amount),
        stats.added(counter, amount).last_packet == stats.last_packet,
{
}

} // verus!
