//! Per-APID packet sequence counts, and what they say was lost.
//!
//! CCSDS 133.0-B-2: each APID has its own fourteen-bit packet sequence count, incremented once
//! per packet and wrapping at 16 384. A gap in it is the only evidence a ground station has that
//! a packet existed and did not arrive.

use vstd::arithmetic::div_mod::*;
use vstd::prelude::*;

use crate::event::counted_up;

verus! {

/// APIDs an eleven-bit field can name.
pub const APID_COUNT: usize = 2048;

/// The modulus of the CCSDS packet sequence count: fourteen bits.
pub const SEQUENCE_MODULUS: u32 = 16_384;

/// How many gaps on one APID are folded before the running total is said out loud.
pub const GAP_SUMMARY_INTERVAL: u32 = 64;

/// Contiguous packets that end a dropout, after which the next gap is named in full again.
pub const HEALTHY_RUN: u32 = 64;

/// What one APID's run of gaps has cost since it was last reported in full.
#[derive(Clone, Copy, PartialEq, Eq, Debug, Structural)]
pub struct Burst {
    /// Gaps folded into the running total rather than named.
    pub gaps: u32,
    /// Packets those gaps imply.
    pub missing: u32,
    /// Packets that arrived contiguously since the last gap.
    pub healthy: u32,
}

/// What the log should say about one APID's sequence count, if anything.
#[derive(Clone, Copy, PartialEq, Eq, Debug, Structural)]
pub enum GapReport {
    /// Nothing: either the count was contiguous, or this gap is inside a run already reported.
    Quiet,
    /// The first gap of a dropout. Names the sequence count, which is what says where.
    First,
    /// The running total for a dropout that is still going, or has just ended.
    Running {
        /// Gaps on this APID since the first one was named.
        gaps: u32,
        /// Packets those gaps imply.
        missing: u32,
        /// Whether the link has recovered, which is what ends the run.
        recovered: bool,
    },
}

/// Per-APID packet sequence counts, and what they say was lost.
#[derive(Clone, Debug)]
pub struct SequenceTracker {
    last: Vec<Option<u16>>,
    burst: Vec<Burst>,
    gaps: u64,
    missing: u64,
}

/// What a tracker has seen.
#[verifier::ext_equal]
pub struct TrackerView {
    /// The last count of each APID.
    pub last: Seq<Option<u16>>,
    /// The run of gaps of each APID.
    pub burst: Seq<Burst>,
    /// How many times a gap was seen, over every APID.
    pub gaps: u64,
    /// How many packets those gaps say were lost.
    pub missing: u64,
}

impl View for SequenceTracker {
    type V = TrackerView;

    closed spec fn view(&self) -> TrackerView {
        TrackerView {
            last: self.last@,
            burst: self.burst@,
            gaps: self.gaps,
            missing: self.missing,
        }
    }
}

/// `count` and `amount` together, stopping at the largest.
pub open spec fn saturated_sum(count: u64, amount: int) -> u64 {
    if count + amount > u64::MAX {
        u64::MAX
    } else {
        (count + amount) as u64
    }
}

/// `count` and `amount` together, stopping at the largest.
pub open spec fn saturated_sum_u32(count: u32, amount: int) -> u32 {
    if count + amount > u32::MAX {
        u32::MAX
    } else {
        (count + amount) as u32
    }
}

/// No run of gaps.
pub open spec fn calm() -> Burst {
    Burst { gaps: 0, missing: 0, healthy: 0 }
}

/// How many packets were missed between two counts: none where the second is the first again,
/// and otherwise the distance forwards, around the wrap.
pub open spec fn missed_between(previous: int, current: int) -> int {
    if current == previous {
        0
    } else {
        (current - previous - 1) % 16_384
    }
}

/// How many packets were missed before a count: none before the first of an APID, and none of
/// an APID that cannot exist.
pub open spec fn missed_before(tracker: TrackerView, apid: u16, sequence: u16) -> int {
    if apid < tracker.last.len() && tracker.last[apid as int] is Some {
        missed_between(tracker.last[apid as int]->0 as int, sequence as int % 16_384)
    } else {
        0
    }
}

/// A tracker after one packet's count.
pub open spec fn observed(tracker: TrackerView, apid: u16, sequence: u16) -> TrackerView {
    let missed = missed_before(tracker, apid, sequence);
    TrackerView {
        last: if apid < tracker.last.len() {
            tracker.last.update(apid as int, Some((sequence as int % 16_384) as u16))
        } else {
            tracker.last
        },
        burst: tracker.burst,
        gaps: if missed > 0 {
            saturated_sum(tracker.gaps, 1)
        } else {
            tracker.gaps
        },
        missing: saturated_sum(tracker.missing, missed),
    }
}

/// A run of gaps after one more packet, `missed` packets after the one before it.
pub open spec fn burst_after(burst: Burst, missed: u16) -> Burst {
    if missed == 0 {
        let healthy = counted_up(burst.healthy);
        if healthy < 64 || burst.gaps == 0 {
            Burst { healthy, ..burst }
        } else {
            calm()
        }
    } else {
        Burst {
            gaps: counted_up(burst.gaps),
            missing: saturated_sum_u32(burst.missing, missed as int),
            healthy: 0,
        }
    }
}

/// What the log should say of one more packet.
pub open spec fn report_of(burst: Burst, missed: u16) -> GapReport {
    if missed == 0 {
        if counted_up(burst.healthy) < 64 || burst.gaps == 0 {
            GapReport::Quiet
        } else {
            GapReport::Running { gaps: burst.gaps, missing: burst.missing, recovered: true }
        }
    } else if burst.gaps == 0 {
        GapReport::First
    } else if counted_up(burst.gaps) % 64 == 0 {
        GapReport::Running {
            gaps: counted_up(burst.gaps),
            missing: saturated_sum_u32(burst.missing, missed as int),
            recovered: false,
        }
    } else {
        GapReport::Quiet
    }
}

/// A tracker after what was missed before one packet is filed.
pub open spec fn noted(tracker: TrackerView, apid: u16, missed: u16) -> TrackerView {
    if apid < tracker.burst.len() {
        TrackerView {
            burst: tracker.burst.update(
                apid as int,
                burst_after(tracker.burst[apid as int], missed),
            ),
            ..tracker
        }
    } else {
        tracker
    }
}

/// What the log should say of what was missed before one packet of an APID.
pub open spec fn note_report(tracker: TrackerView, apid: u16, missed: u16) -> GapReport {
    if apid < tracker.burst.len() {
        report_of(tracker.burst[apid as int], missed)
    } else {
        GapReport::Quiet
    }
}

impl TrackerView {
    /// A slot for every APID, and counts of fourteen bits.
    pub open spec fn valid(self) -> bool {
        &&& self.last.len() == 2048
        &&& self.burst.len() == 2048
        &&& forall|i: int|
            0 <= i < self.last.len() ==> (#[trigger] self.last[i] matches Some(count) ==> count
                < 16_384)
    }
}

impl Default for SequenceTracker {
    /// A tracker that has seen nothing.
    fn default() -> (r: Self)
        ensures
            r@.valid(),
            r@ == fresh_tracker(),
    {
        Self::new()
    }
}

/// A tracker that has seen nothing.
pub open spec fn fresh_tracker() -> TrackerView {
    TrackerView {
        last: Seq::new(2048, |i: int| None),
        burst: Seq::new(2048, |i: int| calm()),
        gaps: 0,
        missing: 0,
    }
}

/// A tracker that has forgotten every count and keeps its totals.
pub open spec fn forgotten(tracker: TrackerView) -> TrackerView {
    TrackerView { gaps: tracker.gaps, missing: tracker.missing, ..fresh_tracker() }
}

impl SequenceTracker {
    /// A tracker with a slot for every APID.
    pub fn new() -> (r: Self)
        ensures
            r@.valid(),
            r@ == fresh_tracker(),
    {
        let mut last: Vec<Option<u16>> = Vec::with_capacity(APID_COUNT);
        let mut burst: Vec<Burst> = Vec::with_capacity(APID_COUNT);
        let mut made: usize = 0;
        while made < APID_COUNT
            invariant
                made <= 2048,
                last@ == Seq::new(made as nat, |i: int| None::<u16>),
                burst@ == Seq::new(made as nat, |i: int| calm()),
            decreases 2048 - made,
        {
            last.push(None);
            burst.push(Burst { gaps: 0, missing: 0, healthy: 0 });
            made = made + 1;
            assert(last@ =~= Seq::new(made as nat, |i: int| None::<u16>));
            assert(burst@ =~= Seq::new(made as nat, |i: int| calm()));
        }
        SequenceTracker { last, burst, gaps: 0, missing: 0 }
    }

    /// Files what `observe` returned and says what the log should carry.
    ///
    /// The counters keep every gap; this decides how many of them become sentences.
    pub fn note(&mut self, apid: u16, missed: u16) -> (r: GapReport)
        requires
            old(self)@.valid(),
        ensures
            final(self)@.valid(),
            final(self)@ == noted(old(self)@, apid, missed),
            r == note_report(old(self)@, apid, missed),
    {
        let index: usize = apid as usize;
        if index >= self.burst.len() {
            return GapReport::Quiet;
        }
        let burst: Burst = self.burst[index];
        if missed == 0 {
            let healthy: u32 = if burst.healthy < u32::MAX {
                burst.healthy + 1
            } else {
                burst.healthy
            };
            if healthy < HEALTHY_RUN || burst.gaps == 0 {
                self.burst[index] = Burst { gaps: burst.gaps, missing: burst.missing, healthy };
                return GapReport::Quiet;
            }
            self.burst[index] = Burst { gaps: 0, missing: 0, healthy: 0 };
            return GapReport::Running {
                gaps: burst.gaps,
                missing: burst.missing,
                recovered: true,
            };
        }
        let gaps: u32 = if burst.gaps < u32::MAX {
            burst.gaps + 1
        } else {
            burst.gaps
        };
        let missing: u32 = burst.missing.saturating_add(missed as u32);
        self.burst[index] = Burst { gaps, missing, healthy: 0 };
        if burst.gaps == 0 {
            return GapReport::First;
        }
        if gaps % GAP_SUMMARY_INTERVAL == 0 {
            return GapReport::Running { gaps, missing, recovered: false };
        }
        GapReport::Quiet
    }

    /// Files one packet's count and returns how many packets were missed before it.
    ///
    /// Zero means continuous: the first packet of an APID, a count one above the last, and a
    /// repeated count. A count that fourteen bits cannot hold is reduced modulo 16 384; an APID
    /// that eleven bits cannot hold is not tracked.
    pub fn observe(&mut self, apid: u16, sequence: u16) -> (r: u16)
        requires
            old(self)@.valid(),
        ensures
            final(self)@.valid(),
            final(self)@ == observed(old(self)@, apid, sequence),
            r == missed_before(old(self)@, apid, sequence),
            r < 16_384,
    {
        let current: u32 = sequence as u32 % SEQUENCE_MODULUS;
        let index: usize = apid as usize;
        if index >= self.last.len() {
            return 0;
        }
        let previous: Option<u16> = self.last[index];
        self.last[index] = Some(current as u16);
        match previous {
            None => 0,
            Some(count) => {
                let before: u32 = count as u32;
                if current == before {
                    return 0;
                }
                let missed: u32 = (current + SEQUENCE_MODULUS - before - 1) % SEQUENCE_MODULUS;
                proof {
                    lemma_mod_add_multiples_vanish(current - before - 1, 16_384);
                }
                if missed == 0 {
                    return 0;
                }
                self.gaps = self.gaps.saturating_add(1);
                self.missing = self.missing.saturating_add(missed as u64);
                missed as u16
            },
        }
    }

    /// The last count seen for an APID, if one has arrived.
    pub fn last_seen(&self, apid: u16) -> (r: Option<u16>)
        ensures
            r == (if apid < self@.last.len() {
                self@.last[apid as int]
            } else {
                None
            }),
    {
        let index: usize = apid as usize;
        if index < self.last.len() {
            self.last[index]
        } else {
            None
        }
    }

    /// How many times a gap was seen, over every APID.
    pub fn gaps(&self) -> (r: u64)
        ensures
            r == self@.gaps,
    {
        self.gaps
    }

    /// How many packets those gaps say were lost.
    ///
    /// Separate from [`SequenceTracker::gaps`] because one gap of 400 and 400 gaps of one are
    /// different links.
    pub fn missing(&self) -> (r: u64)
        ensures
            r == self@.missing,
    {
        self.missing
    }

    /// Forgets every count, keeping the totals.
    ///
    /// Called when a source restarts, where the next count is unrelated to the last and
    /// comparing them would report a gap of some thousands.
    pub fn reset(&mut self)
        requires
            old(self)@.valid(),
        ensures
            final(self)@.valid(),
            final(self)@ == forgotten(old(self)@),
    {
        let fresh = SequenceTracker::new();
        self.last = fresh.last;
        self.burst = fresh.burst;
    }
}

/// The count after a count is never a gap, around the wrap as anywhere else.
pub proof fn the_next_count_is_continuous(tracker: TrackerView, apid: u16, sequence: u16)
    requires
        tracker.valid(),
    ensures
        missed_before(
            observed(tracker, apid, sequence),
            apid,
            ((sequence + 1) % 16_384) as u16,
        ) == 0,
{
    let reduced = sequence as int % 16_384;
    if apid < 2048 {
        if reduced == 16_383 {
            assert((sequence + 1) % 16_384 == 0);
        } else {
            assert((sequence + 1) % 16_384 == reduced + 1);
        }
    }
}

/// A gap counts the packets it implies: after a count, a count `lost` further on than the next
/// says that `lost` packets are missing, around the wrap as anywhere else.
pub proof fn a_gap_counts_what_it_implies(
    tracker: TrackerView,
    apid: u16,
    sequence: u16,
    lost: u16,
)
    requires
        tracker.valid(),
        apid < 2048,
        lost < 16_383,
    ensures
        missed_before(
            observed(tracker, apid, sequence),
            apid,
            ((sequence + 1 + lost) % 16_384) as u16,
        ) == lost,
{
    let previous = sequence as int % 16_384;
    let current = (sequence + 1 + lost) % 16_384;
    lemma_small_mod(current as nat, 16_384);
    if previous + 1 + lost < 16_384 {
        assert(current == previous + 1 + lost);
    } else {
        assert(current == previous + 1 + lost - 16_384);
    }
}

/// The first packet of an APID is not a gap, a repeated count is not one, and an APID that
/// eleven bits cannot hold never is.
pub proof fn what_is_never_a_gap(tracker: TrackerView, apid: u16, sequence: u16)
    requires
        tracker.valid(),
    ensures
        apid < 2048 && tracker.last[apid as int] is None ==> missed_before(tracker, apid, sequence)
            == 0,
        missed_before(observed(tracker, apid, sequence), apid, sequence) == 0,
        apid >= 2048 ==> missed_before(tracker, apid, sequence) == 0 && observed(
            tracker,
            apid,
            sequence,
        ) == tracker,
{
    if apid >= 2048 {
        assert(observed(tracker, apid, sequence) =~= tracker);
    }
}

/// Each APID is tracked on its own: a packet of one changes neither the count nor the run of
/// gaps of another.
pub proof fn apids_are_tracked_apart(
    tracker: TrackerView,
    apid: u16,
    other: u16,
    sequence: u16,
    next: u16,
    missed: u16,
)
    requires
        tracker.valid(),
        apid != other,
    ensures
        missed_before(observed(tracker, apid, sequence), other, next) == missed_before(
            tracker,
            other,
            next,
        ),
        note_report(noted(tracker, apid, missed), other, missed) == note_report(
            tracker,
            other,
            missed,
        ),
{
}

/// After a reset the next count of every APID is its first, and the totals are as they were.
pub proof fn a_reset_forgets_the_counts(tracker: TrackerView, apid: u16, sequence: u16)
    ensures
        ({
            let reset = forgotten(tracker);
            missed_before(reset, apid, sequence) == 0 && observed(reset, apid, sequence).gaps
                == tracker.gaps && observed(reset, apid, sequence).missing == tracker.missing
        }),
{
}

/// The run of gaps of one APID after several packets.
pub open spec fn burst_after_all(missed: Seq<u16>) -> Burst
    decreases missed.len(),
{
    if missed.len() == 0 {
        calm()
    } else {
        burst_after(burst_after_all(missed.drop_last()), missed.last())
    }
}

/// How many lines the log gets of several packets of one APID.
pub open spec fn lines_of(missed: Seq<u16>) -> nat
    decreases missed.len(),
{
    if missed.len() == 0 {
        0
    } else {
        lines_of(missed.drop_last()) + (if report_of(
            burst_after_all(missed.drop_last()),
            missed.last(),
        ) == GapReport::Quiet {
            0nat
        } else {
            1nat
        })
    }
}

#[verifier::rlimit(60)]
#[verifier::spinoff_prover]
proof fn lemma_lines(missed: Seq<u16>)
    ensures
        ({
            let burst = burst_after_all(missed);
            let credit: int = if burst.gaps > 0 {
                64
            } else {
                0
            };
            let run: int = if burst.gaps > 0 {
                2 * burst.healthy
            } else {
                0
            };
            &&& burst.gaps > 0 ==> burst.healthy < 64
            &&& 64 * lines_of(missed) + burst.gaps % 64 + run <= 3 * missed.len() + credit
        }),
    decreases missed.len(),
{
    if missed.len() > 0 {
        lemma_lines(missed.drop_last());
        let before = burst_after_all(missed.drop_last());
        if missed.last() != 0 && before.gaps == u32::MAX {
            assert(u32::MAX % 64 == 63);
        }
    }
}

/// A failing link does not fill the log: of any packets of one APID, however they were lost, no
/// more than three in sixty-four become a line, and one besides.
pub proof fn a_failing_link_does_not_fill_the_log(missed: Seq<u16>)
    ensures
        64 * lines_of(missed) <= 3 * missed.len() + 64,
{
    lemma_lines(missed);
}

/// The first gap of a dropout is always said, and so is the recovery that ends it.
pub proof fn a_dropout_is_named_and_ended(burst: Burst, missed: u16)
    ensures
        missed != 0 && burst.gaps == 0 ==> report_of(burst, missed) == GapReport::First,
        burst.gaps > 0 && counted_up(burst.healthy) >= 64 ==> report_of(burst, 0)
            == (GapReport::Running { gaps: burst.gaps, missing: burst.missing, recovered: true })
            && burst_after(burst, 0) == calm(),
{
}

} // verus!
