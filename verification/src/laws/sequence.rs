//! What sequence counts promise of one packet and of a run of gaps.

use vstd::prelude::*;

use crate::sequence::{
    burst_after, calm, forgotten, fresh_tracker, missed_before, noted, observed, report_of, Burst,
    GapReport, TrackerView,
};

verus! {

/// A packet is missed for each count between the last one of its APID and its own, around the wrap
/// too; a repeat misses none, nor does the first packet of an APID or a number that is no APID.
pub proof fn what_is_between_two_counts_is_missed(
    tracker: TrackerView,
    apid: u16,
    sequence: u16,
    last: u16,
)
    requires
        tracker.valid(),
        sequence < 16_384,
    ensures
        apid >= 2048 ==> missed_before(tracker, apid, sequence) == 0,
        apid < 2048 && tracker.last[apid as int] is None ==> missed_before(tracker, apid, sequence)
            == 0,
        apid < 2048 && tracker.last[apid as int] == Some(last) ==> ({
            let missed = missed_before(tracker, apid, sequence);
            &&& sequence == last ==> missed == 0
            &&& sequence > last ==> missed == sequence - last - 1
            &&& sequence < last ==> missed == sequence + 16_384 - last - 1
        }),
{
    if apid < 2048 && tracker.last[apid as int] == Some(last) {
        assert(last < 16_384);
        if sequence < last {
            assert((sequence - last - 1) % 16_384 == sequence + 16_384 - last - 1);
        }
    }
}

/// A packet is remembered as the last of its APID, adds what it missed to what is missing, and is
/// one gap more where it missed any; nothing is forgotten of the others.
pub proof fn a_packet_is_remembered(
    tracker: TrackerView,
    apid: u16,
    sequence: u16,
    other: int,
)
    requires
        tracker.valid(),
        sequence < 16_384,
        tracker.gaps < u64::MAX,
        tracker.missing < u64::MAX - 16_384,
    ensures
        ({
            let after = observed(tracker, apid, sequence);
            let missed = missed_before(tracker, apid, sequence);
            &&& apid < 2048 ==> after.last[apid as int] == Some(sequence)
            &&& after.missing == tracker.missing + missed
            &&& after.gaps == tracker.gaps + (if missed > 0 {
                1int
            } else {
                0
            })
            &&& after.burst == tracker.burst
            &&& 0 <= other < 2048 && other != apid ==> after.last[other] == tracker.last[other]
            &&& after.last.len() == tracker.last.len()
        }),
{
    if apid < 2048 && tracker.last[apid as int] is Some {
        what_is_between_two_counts_is_missed(
            tracker,
            apid,
            sequence,
            tracker.last[apid as int]->0,
        );
    }
}

/// A gap is one more of its run, with what it missed, and starts the count of packets in order over;
/// a packet in order is one more of those, and the sixty-fourth ends the run.
pub proof fn a_run_of_gaps_is_counted(burst: Burst, missed: u16)
    requires
        burst.gaps < u32::MAX,
        burst.missing < u32::MAX - 65_536,
        burst.healthy < u32::MAX,
    ensures
        missed > 0 ==> burst_after(burst, missed).gaps == burst.gaps + 1 && burst_after(
            burst,
            missed,
        ).missing == burst.missing + missed && burst_after(burst, missed).healthy == 0,
        burst.gaps > 0 && burst.healthy + 1 < 64 ==> burst_after(burst, 0).gaps == burst.gaps
            && burst_after(burst, 0).missing == burst.missing && burst_after(burst, 0).healthy
            == burst.healthy + 1,
        burst.gaps > 0 && burst.healthy + 1 >= 64 ==> burst_after(burst, 0).gaps == 0 && burst_after(
            burst,
            0,
        ).missing == 0 && burst_after(burst, 0).healthy == 0,
        burst.gaps == 0 ==> burst_after(burst, 0).gaps == 0 && burst_after(burst, 0).missing
            == burst.missing,
{
}

/// The first gap of a run is named, every sixty-fourth is summed up, and the sixty-fourth packet in
/// order behind it ends it with the sum; nothing else is said.
pub proof fn a_run_of_gaps_is_reported(burst: Burst, missed: u16)
    requires
        burst.gaps < u32::MAX,
        burst.missing < u32::MAX - 65_536,
        burst.healthy < u32::MAX,
    ensures
        missed > 0 && burst.gaps == 0 ==> report_of(burst, missed) == GapReport::First,
        missed > 0 && burst.gaps > 0 && (burst.gaps + 1) % 64 != 0 ==> report_of(burst, missed)
            == GapReport::Quiet,
        missed > 0 && burst.gaps > 0 && (burst.gaps + 1) % 64 == 0 ==> report_of(burst, missed) == (
        GapReport::Running {
            gaps: (burst.gaps + 1) as u32,
            missing: (burst.missing + missed) as u32,
            recovered: false,
        }),
        burst.gaps == 0 || burst.healthy + 1 < 64 ==> report_of(burst, 0) == GapReport::Quiet,
        burst.gaps > 0 && burst.healthy + 1 >= 64 ==> report_of(burst, 0) == (GapReport::Running {
            gaps: burst.gaps,
            missing: burst.missing,
            recovered: true,
        }),
{
}

/// What is noted of an APID is noted of that one alone, and counts nothing.
pub proof fn a_note_is_of_one_apid(tracker: TrackerView, apid: u16, missed: u16, other: int)
    requires
        tracker.valid(),
    ensures
        ({
            let after = noted(tracker, apid, missed);
            &&& apid < 2048 ==> after.burst[apid as int] == burst_after(
                tracker.burst[apid as int],
                missed,
            )
            &&& 0 <= other < 2048 && other != apid ==> after.burst[other] == tracker.burst[other]
            &&& after.last == tracker.last
            &&& after.gaps == tracker.gaps
            &&& after.missing == tracker.missing
        }),
{
}

/// A fresh tracker has seen nothing and lost nothing, and one that is reset has seen nothing and
/// keeps what was lost.
pub proof fn a_reset_keeps_the_totals(tracker: TrackerView, apid: int)
    requires
        0 <= apid < 2048,
    ensures
        fresh_tracker().valid(),
        fresh_tracker().last[apid] is None,
        fresh_tracker().burst[apid] == calm(),
        fresh_tracker().gaps == 0 && fresh_tracker().missing == 0,
        calm().gaps == 0 && calm().missing == 0 && calm().healthy == 0,
        forgotten(tracker).last[apid] is None,
        forgotten(tracker).burst[apid] == calm(),
        forgotten(tracker).gaps == tracker.gaps,
        forgotten(tracker).missing == tracker.missing,
{
}

} // verus!
