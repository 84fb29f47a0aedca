//! What sequence counts say over a whole pass: what the totals add up to, how gaps are numbered on
//! the log, and which losses a station can notice at all.

use vstd::prelude::*;

use crate::sequence::{
    burst_after_all, forgotten, fresh_tracker, missed_before, missed_between, note_report, noted,
    observed, saturated_sum, saturated_sum_u32, GapReport, TrackerView,
};

verus! {

/// What can be done to a tracker.
pub ghost enum TrackerStep {
    /// A packet's APID and its count are observed.
    Observe(u16, u16),
    /// What was missed before a packet of an APID is noted.
    Note(u16, u16),
    /// The counts are forgotten.
    Reset,
}

/// A tracker after one step.
pub open spec fn after_step(tracker: TrackerView, step: TrackerStep) -> TrackerView {
    match step {
        TrackerStep::Observe(apid, sequence) => observed(tracker, apid, sequence),
        TrackerStep::Note(apid, missed) => noted(tracker, apid, missed),
        TrackerStep::Reset => forgotten(tracker),
    }
}

/// A tracker after several steps, from new.
pub open spec fn after_steps(steps: Seq<TrackerStep>) -> TrackerView
    decreases steps.len(),
{
    if steps.len() == 0 {
        fresh_tracker()
    } else {
        after_step(after_steps(steps.drop_last()), steps.last())
    }
}

/// What observing returns in a step: nothing where the step observes nothing.
pub open spec fn returned(tracker: TrackerView, step: TrackerStep) -> int {
    match step {
        TrackerStep::Observe(apid, sequence) => missed_before(tracker, apid, sequence),
        _ => 0,
    }
}

/// Everything that observing returned in several steps, together.
pub open spec fn lost_in(steps: Seq<TrackerStep>) -> int
    decreases steps.len(),
{
    if steps.len() == 0 {
        0
    } else {
        lost_in(steps.drop_last()) + returned(after_steps(steps.drop_last()), steps.last())
    }
}

/// How many times observing returned more than nothing in several steps.
pub open spec fn gaps_in(steps: Seq<TrackerStep>) -> int
    decreases steps.len(),
{
    if steps.len() == 0 {
        0
    } else {
        gaps_in(steps.drop_last()) + (if returned(
            after_steps(steps.drop_last()),
            steps.last(),
        ) > 0 {
            1int
        } else {
            0
        })
    }
}

proof fn lemma_missed(tracker: TrackerView, apid: u16, sequence: u16)
    requires
        tracker.valid(),
    ensures
        0 <= missed_before(tracker, apid, sequence) <= 16_382,
        observed(tracker, apid, sequence).valid(),
{
    if apid < tracker.last.len() && tracker.last[apid as int] is Some {
        let previous = tracker.last[apid as int]->0 as int;
        let current = sequence as int % 16_384;
        if current != previous && (current - previous - 1) % 16_384 == 16_383 {
            assert(-16_384 < current - previous < 16_384);
            assert(false);
        }
    }
}

/// The totals are what observing returned, added up, through every note and reset: so many packets
/// missing, in so many gaps, up to the largest number there is.
pub proof fn the_totals_add_up(steps: Seq<TrackerStep>)
    ensures
        after_steps(steps).valid(),
        after_steps(steps).missing == saturated_sum(0, lost_in(steps)),
        after_steps(steps).gaps == saturated_sum(0, gaps_in(steps)),
        0 <= gaps_in(steps) <= lost_in(steps) <= 16_382 * gaps_in(steps),
        after_steps(steps).gaps <= after_steps(steps).missing <= 16_382 * after_steps(steps).gaps,
    decreases steps.len(),
{
    if steps.len() > 0 {
        let before = after_steps(steps.drop_last());
        the_totals_add_up(steps.drop_last());
        match steps.last() {
            TrackerStep::Observe(apid, sequence) => {
                lemma_missed(before, apid, sequence);
            },
            _ => {},
        }
    }
}

/// Neither total ever goes down, whatever is done to a tracker.
pub proof fn the_totals_never_go_down(tracker: TrackerView, step: TrackerStep)
    requires
        tracker.valid(),
    ensures
        after_step(tracker, step).gaps >= tracker.gaps,
        after_step(tracker, step).missing >= tracker.missing,
{
    match step {
        TrackerStep::Observe(apid, sequence) => {
            lemma_missed(tracker, apid, sequence);
        },
        _ => {},
    }
}

/// What was noted of an APID since the tracker was made or last reset, in order.
pub open spec fn notes_of(steps: Seq<TrackerStep>, apid: u16) -> Seq<u16>
    decreases steps.len(),
{
    if steps.len() == 0 {
        Seq::empty()
    } else {
        let earlier = notes_of(steps.drop_last(), apid);
        match steps.last() {
            TrackerStep::Note(other, missed) => if other == apid {
                earlier.push(missed)
            } else {
                earlier
            },
            TrackerStep::Observe(_, _) => earlier,
            TrackerStep::Reset => Seq::empty(),
        }
    }
}

/// The run of gaps of an APID is made of the notes of that APID, and of nothing else.
pub proof fn only_its_own_notes_count(steps: Seq<TrackerStep>, apid: u16)
    requires
        apid < 2048,
    ensures
        after_steps(steps).burst[apid as int] == burst_after_all(notes_of(steps, apid)),
    decreases steps.len(),
{
    if steps.len() > 0 {
        only_its_own_notes_count(steps.drop_last(), apid);
        the_totals_add_up(steps.drop_last());
        let earlier = notes_of(steps.drop_last(), apid);
        match steps.last() {
            TrackerStep::Note(other, missed) => {
                if other == apid {
                    assert(earlier.push(missed).drop_last() =~= earlier);
                }
            },
            _ => {},
        }
    }
}

/// How many of several notes are of gaps.
pub open spec fn gap_notes(missed: Seq<u16>) -> int
    decreases missed.len(),
{
    if missed.len() == 0 {
        0
    } else {
        gap_notes(missed.drop_last()) + (if missed.last() > 0 {
            1int
        } else {
            0
        })
    }
}

/// How many packets several notes say are missing.
pub open spec fn noted_missing(missed: Seq<u16>) -> int
    decreases missed.len(),
{
    if missed.len() == 0 {
        0
    } else {
        noted_missing(missed.drop_last()) + missed.last()
    }
}

/// How many notes of no gap come behind the last gap.
pub open spec fn healthy_notes(missed: Seq<u16>) -> int
    decreases missed.len(),
{
    if missed.len() == 0 || missed.last() > 0 {
        0
    } else {
        healthy_notes(missed.drop_last()) + 1
    }
}

/// Whether a dropout, once it has begun, has not ended: nowhere behind a gap are there so many
/// contiguous packets.
pub open spec fn one_dropout(missed: Seq<u16>) -> bool
    decreases missed.len(),
{
    missed.len() == 0 || (one_dropout(missed.drop_last()) && (gap_notes(missed) > 0
        ==> healthy_notes(missed) < 64))
}

proof fn lemma_dropout(missed: Seq<u16>)
    requires
        one_dropout(missed),
    ensures
        0 <= gap_notes(missed),
        0 <= noted_missing(missed),
        0 <= healthy_notes(missed),
        gap_notes(missed) == 0 ==> noted_missing(missed) == 0,
        ({
            let burst = burst_after_all(missed);
            &&& burst.gaps == saturated_sum_u32(0, gap_notes(missed))
            &&& burst.missing == saturated_sum_u32(0, noted_missing(missed))
            &&& gap_notes(missed) > 0 ==> burst.healthy == healthy_notes(missed)
        }),
    decreases missed.len(),
{
    if missed.len() > 0 {
        lemma_dropout(missed.drop_last());
    }
}

/// What the log says of the last of several notes of one APID in one dropout: the first gap in
/// full, and of the others every sixty-fourth, with how many there were and what they cost.
pub open spec fn numbered_report(missed: Seq<u16>) -> GapReport {
    let gaps = gap_notes(missed);
    if missed.last() == 0 {
        GapReport::Quiet
    } else if gaps == 1 {
        GapReport::First
    } else if gaps % 64 == 0 {
        GapReport::Running {
            gaps: gaps as u32,
            missing: saturated_sum_u32(0, noted_missing(missed)),
            recovered: false,
        }
    } else {
        GapReport::Quiet
    }
}

/// The gaps of a dropout are numbered from its first: whatever was observed before, and whatever
/// was noted of other APIDs, a note is reported by its number among those of its own APID since
/// the tracker was made or reset. A note leaves the counts and the totals alone.
pub proof fn gaps_are_numbered(steps: Seq<TrackerStep>, apid: u16, missed: u16)
    requires
        apid < 2048,
        one_dropout(notes_of(steps, apid).push(missed)),
        gap_notes(notes_of(steps, apid).push(missed)) <= u32::MAX,
    ensures
        note_report(after_steps(steps), apid, missed) == numbered_report(
            notes_of(steps, apid).push(missed),
        ),
        noted(after_steps(steps), apid, missed).last == after_steps(steps).last,
        noted(after_steps(steps), apid, missed).gaps == after_steps(steps).gaps,
        noted(after_steps(steps), apid, missed).missing == after_steps(steps).missing,
{
    let own = notes_of(steps, apid);
    let all = own.push(missed);
    assert(all.drop_last() =~= own);
    the_totals_add_up(steps);
    only_its_own_notes_count(steps, apid);
    lemma_dropout(own);
    lemma_dropout(all);
}

/// How many packets of an APID there are among the first `count` of a stream.
pub open spec fn packets_among(stream: Seq<(u16, u16)>, apid: u16, count: int) -> int
    decreases count,
{
    if count <= 0 {
        0
    } else {
        packets_among(stream, apid, count - 1) + (if stream[count - 1].0 == apid {
            1int
        } else {
            0
        })
    }
}

/// Whether the packets of a stream, each an APID and its count, are as they were sent: those of
/// each APID counting up by one from where it starts, around the wrap.
pub open spec fn counts_up(stream: Seq<(u16, u16)>, starts: spec_fn(u16) -> int) -> bool {
    forall|i: int|
        0 <= i < stream.len() ==> (#[trigger] stream[i]).0 < 2048 && stream[i].1 == (starts(
            stream[i].0,
        ) + packets_among(stream, stream[i].0, i)) % 16_384
}

/// Whether a packet of an APID arrived among the first `count` of a stream.
pub open spec fn has_arrived(
    stream: Seq<(u16, u16)>,
    arrived: Seq<bool>,
    apid: u16,
    count: int,
) -> bool
    decreases count,
{
    count > 0 && ((stream[count - 1].0 == apid && arrived[count - 1]) || has_arrived(
        stream,
        arrived,
        apid,
        count - 1,
    ))
}

/// How many packets of an APID in a row, of the first `count` of a stream, did not arrive at the
/// end.
pub open spec fn removed_run(
    stream: Seq<(u16, u16)>,
    arrived: Seq<bool>,
    apid: u16,
    count: int,
) -> int
    decreases count,
{
    if count <= 0 {
        0
    } else if stream[count - 1].0 != apid {
        removed_run(stream, arrived, apid, count - 1)
    } else if arrived[count - 1] {
        0
    } else {
        removed_run(stream, arrived, apid, count - 1) + 1
    }
}

/// How many packets a station can notice are missing when the one at `place` arrives: the run of
/// its own APID in front of it, where that has a packet on its other side too.
pub open spec fn noticed_at(stream: Seq<(u16, u16)>, arrived: Seq<bool>, place: int) -> int {
    let apid = stream[place].0;
    if arrived[place] && has_arrived(stream, arrived, apid, place) {
        removed_run(stream, arrived, apid, place)
    } else {
        0
    }
}

/// How long the removed runs with a packet of the same APID on both sides are, together.
pub open spec fn noticed_packets(stream: Seq<(u16, u16)>, arrived: Seq<bool>, count: int) -> int
    decreases count,
{
    if count <= 0 {
        0
    } else {
        noticed_packets(stream, arrived, count - 1) + noticed_at(stream, arrived, count - 1)
    }
}

/// How many removed runs have a packet of the same APID on both sides.
pub open spec fn noticed_runs(stream: Seq<(u16, u16)>, arrived: Seq<bool>, count: int) -> int
    decreases count,
{
    if count <= 0 {
        0
    } else {
        noticed_runs(stream, arrived, count - 1) + (if noticed_at(stream, arrived, count - 1) > 0 {
            1int
        } else {
            0
        })
    }
}

/// What a station does with those of the first `count` packets of a stream that arrived.
pub open spec fn observations(stream: Seq<(u16, u16)>, arrived: Seq<bool>, count: int) -> Seq<
    TrackerStep,
>
    decreases count,
{
    if count <= 0 {
        Seq::empty()
    } else if arrived[count - 1] {
        observations(stream, arrived, count - 1).push(
            TrackerStep::Observe(stream[count - 1].0, stream[count - 1].1),
        )
    } else {
        observations(stream, arrived, count - 1)
    }
}

/// The distance around the wrap between two counts that are `lost` packets apart.
proof fn lemma_around_the_wrap(start: int, lost: int)
    requires
        0 <= lost < 16_383,
    ensures
        missed_between(start % 16_384, (start + lost + 1) % 16_384) == lost,
{
    let previous = start % 16_384;
    let current = (start + lost + 1) % 16_384;
    assert(current == previous + lost + 1 || current == previous + lost + 1 - 16_384);
}

proof fn lemma_stream(
    stream: Seq<(u16, u16)>,
    arrived: Seq<bool>,
    starts: spec_fn(u16) -> int,
    count: int,
)
    requires
        0 <= count <= stream.len(),
        arrived.len() == stream.len(),
        counts_up(stream, starts),
        forall|place: int|
            0 <= place < stream.len() ==> #[trigger] noticed_at(stream, arrived, place) < 16_383,
    ensures
        lost_in(observations(stream, arrived, count)) == noticed_packets(stream, arrived, count),
        gaps_in(observations(stream, arrived, count)) == noticed_runs(stream, arrived, count),
        forall|apid: u16|
            apid < 2048 ==> {
                let last = #[trigger] after_steps(
                    observations(stream, arrived, count),
                ).last[apid as int];
                if has_arrived(stream, arrived, apid, count) {
                    last == Some(
                        ((starts(apid) + packets_among(stream, apid, count) - 1 - removed_run(
                            stream,
                            arrived,
                            apid,
                            count,
                        )) % 16_384) as u16,
                    )
                } else {
                    last is None
                }
            },
    decreases count,
{
    if count > 0 {
        let place = count - 1;
        lemma_stream(stream, arrived, starts, place);
        let earlier = observations(stream, arrived, place);
        the_totals_add_up(earlier);
        let before = after_steps(earlier);
        let (own, sequence) = stream[place];
        if arrived[place] {
            let step = TrackerStep::Observe(own, sequence);
            assert(earlier.push(step).drop_last() =~= earlier);
            let run = removed_run(stream, arrived, own, place);
            let start = starts(own) + packets_among(stream, own, place) - 1 - run;
            lemma_run(stream, arrived, own, place);
            if has_arrived(stream, arrived, own, place) {
                assert(noticed_at(stream, arrived, place) == run);
                lemma_around_the_wrap(start, run);
                assert(before.last[own as int] == Some((start % 16_384) as u16));
                assert(start + run + 1 == starts(own) + packets_among(stream, own, place));
                assert(sequence as int % 16_384 == sequence);
                assert(missed_before(before, own, sequence) == run);
            }
        }
    }
}

proof fn lemma_run(stream: Seq<(u16, u16)>, arrived: Seq<bool>, apid: u16, count: int)
    ensures
        removed_run(stream, arrived, apid, count) >= 0,
    decreases count,
{
    if count > 0 {
        lemma_run(stream, arrived, apid, count - 1);
    }
}

/// What is noticed of packets that did not arrive, out of streams of any number of APIDs
/// interleaved anyhow, is every run of one APID that has a packet of the same APID on both sides:
/// so many gaps, and so many packets missing. A run at the start or the end of an APID's stream is
/// not noticed, and neither another APID's packets nor the wrap are taken for one.
///
/// A run of 16 383 packets or more comes back to where it began, and is taken for a shorter one.
pub proof fn every_run_between_two_packets_is_noticed(
    stream: Seq<(u16, u16)>,
    arrived: Seq<bool>,
    starts: spec_fn(u16) -> int,
)
    requires
        arrived.len() == stream.len(),
        counts_up(stream, starts),
        forall|place: int|
            0 <= place < stream.len() ==> #[trigger] noticed_at(stream, arrived, place) < 16_383,
    ensures
        ({
            let tracker = after_steps(observations(stream, arrived, stream.len() as int));
            &&& tracker.gaps == saturated_sum(
                0,
                noticed_runs(stream, arrived, stream.len() as int),
            )
            &&& tracker.missing == saturated_sum(
                0,
                noticed_packets(stream, arrived, stream.len() as int),
            )
        }),
{
    let all = observations(stream, arrived, stream.len() as int);
    lemma_stream(stream, arrived, starts, stream.len() as int);
    the_totals_add_up(all);
}

} // verus!
