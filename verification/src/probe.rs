//! What a stream is characterised with before anyone writes a definition for it: whether there
//! are sync markers in it, at what spacing, and which APIDs come out.

use vstd::arithmetic::div_mod::*;
use vstd::prelude::*;
use vstd::string::*;

use crate::cli::text_views;
use crate::packet::{apid_of, count_of, RawPacket};
use crate::sequence::{saturated_sum, APID_COUNT, SEQUENCE_MODULUS};
use crate::stats::StatsSnapshot;
use crate::text::{
    decimal, left_aligned, push_decimal, push_left, push_right, right_aligned,
};

verus! {

/// The attached sync marker, most significant octet first: 0x1ACFFC1D.
pub open spec fn sync_marker() -> Seq<u8> {
    seq![0x1au8, 0xcfu8, 0xfcu8, 0x1du8]
}

/// Symbols in a Reed-Solomon codeword: CCSDS 131.0-B-5 section 4.
pub const CODEWORD_SYMBOLS: u64 = 255;

/// What one APID looked like on the wire.
#[derive(Clone, Copy, PartialEq, Eq, Debug, Structural)]
pub struct ApidTally {
    /// Packets seen with this APID.
    pub count: u64,
    /// Shortest packet, header included.
    pub shortest: usize,
    /// The longest one.
    pub longest: usize,
    /// The last sequence count seen, for the continuity check.
    pub last: Option<u16>,
    /// Times continuity broke.
    pub gaps: u64,
    /// Packets the counts say never arrived, summed over the gaps.
    pub missing: u64,
}

/// An APID nothing has been seen on.
pub open spec fn empty_tally() -> ApidTally {
    ApidTally {
        count: 0,
        shortest: usize::MAX,
        longest: 0,
        last: None,
        gaps: 0,
        missing: 0,
    }
}

/// How far a count is from the one that was expected after another, forwards around the wrap.
pub open spec fn distance_after(previous: u16, sequence: u16) -> int {
    (sequence - previous - 1) % 16_384
}

/// A tally after one more packet.
pub open spec fn tallied(tally: ApidTally, length: usize, sequence: u16) -> ApidTally {
    let broken = tally.last is Some && sequence != (tally.last->0 + 1) % 16_384;
    ApidTally {
        count: saturated_sum(tally.count, 1),
        shortest: if length < tally.shortest {
            length
        } else {
            tally.shortest
        },
        longest: if length > tally.longest {
            length
        } else {
            tally.longest
        },
        last: Some(sequence),
        gaps: if broken {
            saturated_sum(tally.gaps, 1)
        } else {
            tally.gaps
        },
        missing: if broken {
            saturated_sum(tally.missing, distance_after(tally.last->0, sequence))
        } else {
            tally.missing
        },
    }
}

impl ApidTally {
    /// An APID nothing has been seen on.
    pub fn empty() -> (r: Self)
        ensures
            r == empty_tally(),
    {
        ApidTally {
            count: 0,
            shortest: usize::MAX,
            longest: 0,
            last: None,
            gaps: 0,
            missing: 0,
        }
    }

    /// Files one packet.
    pub fn observe(&mut self, length: usize, sequence: u16)
        ensures
            *final(self) == tallied(*old(self), length, sequence),
    {
        self.count = self.count.saturating_add(1);
        if length < self.shortest {
            self.shortest = length;
        }
        if length > self.longest {
            self.longest = length;
        }
        if let Some(previous) = self.last {
            let expected: u32 = (previous as u32 + 1) % SEQUENCE_MODULUS;
            if sequence as u32 != expected {
                self.gaps = self.gaps.saturating_add(1);
                let lost: u32 = (sequence as u32 + SEQUENCE_MODULUS - expected) % SEQUENCE_MODULUS;
                proof {
                    lemma_fundamental_div_mod((previous + 1) as int, 16_384);
                    let q = (previous + 1) as int / 16_384;
                    lemma_mod_multiples_vanish(q - 1, sequence + 16_384 - expected, 16_384);
                    lemma_mod_multiples_vanish(1 - q, sequence + 16_384 - expected, 16_384);
                    assert(sequence - previous - 1 == 16_384 * (0 - q) + (sequence - expected));
                    lemma_mod_multiples_vanish(0 - q, sequence - expected, 16_384);
                    lemma_mod_multiples_vanish(1, sequence - expected, 16_384);
                }
                self.missing = self.missing.saturating_add(lost as u64);
            }
        }
        self.last = Some(sequence);
    }
}

/// A count that follows on from the last one, around the wrap too, is no gap; and one that
/// skips some is one gap, and as many packets missing as it skips.
pub proof fn a_gap_counts_the_packets_it_implies(
    tally: ApidTally,
    previous: u16,
    skipped: int,
    length: usize,
    sequence: u16,
)
    requires
        tally.last == Some(previous),
        0 <= skipped < 16_384,
        sequence == (previous + 1 + skipped) % 16_384,
    ensures
        skipped == 0 ==> tallied(tally, length, sequence).gaps == tally.gaps && tallied(
            tally,
            length,
            sequence,
        ).missing == tally.missing,
        skipped > 0 ==> tallied(tally, length, sequence).gaps == saturated_sum(tally.gaps, 1)
            && tallied(tally, length, sequence).missing == saturated_sum(tally.missing, skipped),
{
    let expected = (previous + 1) % 16_384;
    lemma_fundamental_div_mod(previous + 1, 16_384);
    lemma_fundamental_div_mod(previous + 1 + skipped, 16_384);
    let q = (previous + 1 + skipped) / 16_384;
    assert(sequence - previous - 1 == 16_384 * (0 - q) + skipped);
    lemma_mod_multiples_vanish(0 - q, skipped, 16_384);
    lemma_small_mod(skipped as nat, 16_384);
}

/// The first packet of an APID is never a gap.
pub proof fn the_first_packet_is_no_gap(tally: ApidTally, length: usize, sequence: u16)
    requires
        tally.last is None,
    ensures
        tallied(tally, length, sequence).gaps == tally.gaps,
        tallied(tally, length, sequence).missing == tally.missing,
{
}

/// Whether a marker ends a stream.
pub open spec fn ends_in_marker(stream: Seq<u8>) -> bool {
    stream.len() >= 4 && stream.skip(stream.len() - 4) == sync_marker()
}

/// Where the markers of a stream are.
pub open spec fn markers(stream: Seq<u8>) -> Seq<int>
    decreases stream.len(),
{
    if stream.len() == 0 {
        Seq::empty()
    } else if ends_in_marker(stream) {
        markers(stream.drop_last()).push(stream.len() - 4)
    } else {
        markers(stream.drop_last())
    }
}

/// How many of the distances from each of several places to the next are `stride`.
pub open spec fn strides_of(places: Seq<int>, stride: int) -> nat
    decreases places.len(),
{
    if places.len() < 2 {
        0
    } else {
        strides_of(places.drop_last(), stride) + (if places.last() - places[places.len() - 2]
            == stride {
            1nat
        } else {
            0nat
        })
    }
}

/// How many distances there are between places.
pub open spec fn interval_count(places: Seq<int>) -> nat {
    if places.len() == 0 {
        0
    } else {
        (places.len() - 1) as nat
    }
}

/// Whether no distance between places is more common than a stride, and none as common shorter.
pub open spec fn is_modal(places: Seq<int>, stride: int) -> bool {
    &&& strides_of(places, stride) > 0
    &&& forall|other: int|
        {
            let times = #[trigger] strides_of(places, other);
            times < strides_of(places, stride) || (times == strides_of(places, stride) && stride
                <= other)
        }
}

/// The most common distance between places. Of two as common, the shorter.
pub open spec fn modal_stride_of(places: Seq<int>) -> int {
    choose|stride: int| is_modal(places, stride)
}

/// How often a list has counted a stride.
pub open spec fn counted(strides: Seq<(u64, u64)>, stride: int) -> nat
    decreases strides.len(),
{
    if strides.len() == 0 {
        0
    } else if strides.last().0 == stride {
        strides.last().1 as nat
    } else {
        counted(strides.drop_last(), stride)
    }
}

/// The counts of a list together.
pub open spec fn counted_in_all(strides: Seq<(u64, u64)>) -> nat
    decreases strides.len(),
{
    if strides.len() == 0 {
        0
    } else {
        counted_in_all(strides.drop_last()) + strides.last().1 as nat
    }
}

/// Whether no stride is listed twice, and none without having occurred.
pub open spec fn is_tally(strides: Seq<(u64, u64)>) -> bool {
    &&& forall|i: int, j: int|
        0 <= i < j < strides.len() ==> (#[trigger] strides[i]).0 != (#[trigger] strides[j]).0
    &&& forall|i: int| 0 <= i < strides.len() ==> (#[trigger] strides[i]).1 > 0
}

/// Where the attached sync markers are, and how far apart.
///
/// Constant memory: the tally of strides and a three-byte carry, never the positions.
pub struct MarkerScan {
    /// The last three bytes of the stream, so a marker across the seam is still found.
    carry: Vec<u8>,
    /// Bytes consumed so far.
    position: u64,
    /// Markers found.
    count: u64,
    /// Where the first one was.
    first: Option<u64>,
    /// Where the last one was, for the next stride.
    previous: Option<u64>,
    /// How many times each marker-to-marker distance occurred.
    strides: Vec<(u64, u64)>,
    seen: Ghost<Seq<u8>>,
}

/// The markers of a stream are in order, none of them twice, and each within the stream.
pub proof fn no_marker_is_counted_twice(stream: Seq<u8>)
    ensures
        markers(stream).len() <= stream.len(),
        forall|i: int|
            0 <= i < markers(stream).len() ==> 0 <= #[trigger] markers(stream)[i] <= stream.len()
                - 4,
        forall|i: int, j: int|
            0 <= i < j < markers(stream).len() ==> (#[trigger] markers(stream)[i]) < (
            #[trigger] markers(stream)[j]),
    decreases stream.len(),
{
    if stream.len() > 0 {
        no_marker_is_counted_twice(stream.drop_last());
    }
}

proof fn lemma_counted(strides: Seq<(u64, u64)>, index: int)
    requires
        is_tally(strides),
        0 <= index < strides.len(),
    ensures
        counted(strides, strides[index].0 as int) == strides[index].1,
    decreases strides.len(),
{
    let last = strides.len() - 1;
    if index < last {
        assert(strides[index].0 != strides[last].0);
        let init = strides.drop_last();
        lemma_tally_prefix(strides);
        lemma_counted(init, index);
        assert(init[index] == strides[index]);
    }
}

proof fn lemma_tally_prefix(strides: Seq<(u64, u64)>)
    requires
        is_tally(strides),
        strides.len() > 0,
    ensures
        is_tally(strides.drop_last()),
{
    let init = strides.drop_last();
    assert forall|i: int, j: int| 0 <= i < j < init.len() implies (#[trigger] init[i]).0 != (
    #[trigger] init[j]).0 by {
        assert(strides[i].0 != strides[j].0);
    }
    assert forall|i: int| 0 <= i < init.len() implies (#[trigger] init[i]).1 > 0 by {
        assert(strides[i].1 > 0);
    }
}

proof fn lemma_not_counted(strides: Seq<(u64, u64)>, stride: int)
    requires
        forall|i: int| 0 <= i < strides.len() ==> (#[trigger] strides[i]).0 != stride,
    ensures
        counted(strides, stride) == 0,
    decreases strides.len(),
{
    if strides.len() > 0 {
        let init = strides.drop_last();
        assert(strides[strides.len() - 1].0 != stride);
        assert forall|i: int| 0 <= i < init.len() implies (#[trigger] init[i]).0 != stride by {
            assert(strides[i].0 != stride);
        }
        lemma_not_counted(init, stride);
    }
}

proof fn lemma_count_update(strides: Seq<(u64, u64)>, index: int, count: u64)
    requires
        is_tally(strides),
        0 <= index < strides.len(),
        count > 0,
    ensures
        is_tally(strides.update(index, (strides[index].0, count))),
        counted_in_all(strides.update(index, (strides[index].0, count))) == counted_in_all(strides)
            - strides[index].1 + count,
        forall|stride: int| #[trigger]
            counted(strides.update(index, (strides[index].0, count)), stride) == (if stride
                == strides[index].0 {
                count as nat
            } else {
                counted(strides, stride)
            }),
    decreases strides.len(),
{
    let after = strides.update(index, (strides[index].0, count));
    assert forall|i: int, j: int| 0 <= i < j < after.len() implies (#[trigger] after[i]).0 != (
    #[trigger] after[j]).0 by {
        assert(strides[i].0 != strides[j].0);
    }
    assert forall|i: int| 0 <= i < after.len() implies (#[trigger] after[i]).1 > 0 by {
        assert(strides[i].1 > 0);
    }
    lemma_tally_prefix(strides);
    let init = strides.drop_last();
    let last = strides.len() - 1;
    if index == last {
        assert(after.drop_last() =~= init);
        assert forall|i: int| 0 <= i < init.len() implies (#[trigger] init[i]).0
            != strides[index].0 by {
            assert(strides[i].0 != strides[last].0);
        }
        lemma_not_counted(init, strides[index].0 as int);
    } else {
        lemma_count_update(init, index, count);
        assert(init[index] == strides[index]);
        assert(after.drop_last() =~= init.update(index, (strides[index].0, count)));
        assert(strides[index].0 != strides[last].0);
        assert forall|stride: int| #[trigger] counted(after, stride) == (if stride
            == strides[index].0 {
            count as nat
        } else {
            counted(strides, stride)
        }) by {
            assert(counted(after.drop_last(), stride) == (if stride == strides[index].0 {
                count as nat
            } else {
                counted(init, stride)
            }));
        }
    }
}

impl MarkerScan {
    /// The bytes that have been scanned.
    pub closed spec fn stream(&self) -> Seq<u8> {
        self.seen@
    }

    /// What every scan keeps: it says what the bytes it has scanned hold.
    pub closed spec fn wf(&self) -> bool {
        let stream = self.seen@;
        let places = markers(stream);
        &&& stream.len() <= u64::MAX
        &&& self.carry@ == (if stream.len() < 3 {
            stream
        } else {
            stream.skip(stream.len() - 3)
        })
        &&& self.position == stream.len()
        &&& self.count == places.len()
        &&& self.first == (if places.len() > 0 {
            Some(places[0] as u64)
        } else {
            None
        })
        &&& self.previous == (if places.len() > 0 {
            Some(places.last() as u64)
        } else {
            None
        })
        &&& is_tally(self.strides@)
        &&& counted_in_all(self.strides@) == interval_count(places)
        &&& forall|stride: int| #[trigger]
            counted(self.strides@, stride) == strides_of(places, stride)
    }

    /// A scan of nothing.
    pub fn new() -> (r: Self)
        ensures
            r.wf(),
            r.stream() == Seq::<u8>::empty(),
    {
        MarkerScan {
            carry: Vec::new(),
            position: 0,
            count: 0,
            first: None,
            previous: None,
            strides: Vec::new(),
            seen: Ghost(Seq::empty()),
        }
    }

    /// Counts one stride.
    fn count_stride(&mut self, stride: u64)
        requires
            is_tally(old(self).strides@),
            counted_in_all(old(self).strides@) < u64::MAX,
        ensures
            is_tally(final(self).strides@),
            counted_in_all(final(self).strides@) == counted_in_all(old(self).strides@) + 1,
            forall|d: int| #[trigger]
                counted(final(self).strides@, d) == counted(old(self).strides@, d) + (if d == stride {
                    1nat
                } else {
                    0nat
                }),
            final(self).carry == old(self).carry,
            final(self).position == old(self).position,
            final(self).count == old(self).count,
            final(self).first == old(self).first,
            final(self).previous == old(self).previous,
            final(self).seen == old(self).seen,
    {
        let mut index: usize = 0;
        let ghost before = self.strides@;
        while index < self.strides.len()
            invariant
                index <= self.strides@.len(),
                self.strides@ == before,
                is_tally(before),
                counted_in_all(before) < u64::MAX,
                self.carry == old(self).carry,
                self.position == old(self).position,
                self.count == old(self).count,
                self.first == old(self).first,
                self.previous == old(self).previous,
                self.seen == old(self).seen,
                before == old(self).strides@,
                forall|i: int| 0 <= i < index ==> (#[trigger] before[i]).0 != stride,
            decreases self.strides@.len() - index,
        {
            if self.strides[index].0 == stride {
                proof {
                    lemma_part_of_all(before, index as int);
                    lemma_counted(before, index as int);
                    lemma_count_update(before, index as int, (before[index as int].1 + 1) as u64);
                }
                let count: u64 = self.strides[index].1;
                self.strides[index] = (stride, count + 1);
                assert(self.strides@ =~= before.update(
                    index as int,
                    (before[index as int].0, (before[index as int].1 + 1) as u64),
                ));
                return;
            }
            index = index + 1;
        }
        self.strides.push((stride, 1));
        proof {
            let after = self.strides@;
            lemma_not_counted(before, stride as int);
            assert(after.drop_last() =~= before);
            assert forall|i: int, j: int| 0 <= i < j < after.len() implies (#[trigger] after[i]).0
                != (#[trigger] after[j]).0 by {
                if j < before.len() {
                    assert(before[i].0 != before[j].0);
                } else {
                    assert(before[i].0 != stride);
                }
            }
            assert forall|i: int| 0 <= i < after.len() implies (#[trigger] after[i]).1 > 0 by {
                if i < before.len() {
                    assert(before[i].1 > 0);
                }
            }
        }
    }

    /// Scans one chunk, remembering just enough of it for the next.
    pub fn push(&mut self, bytes: &[u8])
        requires
            old(self).wf(),
            old(self).stream().len() + bytes@.len() <= u64::MAX,
        ensures
            final(self).wf(),
            final(self).stream() == old(self).stream() + bytes@,
    {
        let ghost before = self.seen@;
        let mut index: usize = 0;
        assert(before + bytes@.take(0) =~= before);
        while index < bytes.len()
            invariant
                index <= bytes@.len(),
                self.wf(),
                self.seen@ == before + bytes@.take(index as int),
                before.len() + bytes@.len() <= u64::MAX,
            decreases bytes@.len() - index,
        {
            self.step(bytes[index]);
            assert(before + bytes@.take(index + 1) =~= (before + bytes@.take(index as int)).push(
                bytes@[index as int],
            ));
            index = index + 1;
        }
        assert(bytes@.take(index as int) =~= bytes@);
    }

    /// Scans one byte.
    fn step(&mut self, byte: u8)
        requires
            old(self).wf(),
            old(self).seen@.len() < u64::MAX,
        ensures
            final(self).wf(),
            final(self).seen@ == old(self).seen@.push(byte),
    {
        let ghost before = self.seen@;
        let ghost after = before.push(byte);
        proof {
            no_marker_is_counted_twice(before);
            no_marker_is_counted_twice(after);
            assert(after.drop_last() =~= before);
        }
        let complete = self.carry.len() == 3 && self.carry[0] == 0x1a && self.carry[1] == 0xcf
            && self.carry[2] == 0xfc && byte == 0x1d;
        proof {
            if after.len() >= 4 {
                let tail = after.skip(after.len() - 4);
                assert(tail.len() == 4);
                assert(tail[0] == self.carry@[0] && tail[1] == self.carry@[1] && tail[2]
                    == self.carry@[2] && tail[3] == byte);
                assert(complete == (tail =~= sync_marker()));
            }
            assert(complete == ends_in_marker(after));
        }
        if complete {
            let at: u64 = self.position - 3;
            if let Some(previous) = self.previous {
                self.count_stride(at - previous);
            }
            self.count = self.count + 1;
            self.previous = Some(at);
            if self.first.is_none() {
                self.first = Some(at);
            }
            proof {
                let places = markers(before);
                let next = markers(after);
                assert(next.drop_last() =~= places);
                assert forall|stride: int| #[trigger]
                    counted(self.strides@, stride) == strides_of(next, stride) by {
                    assert(counted(old(self).strides@, stride) == strides_of(places, stride));
                }
            }
        }
        self.position = self.position + 1;
        if self.carry.len() == 3 {
            let _oldest: u8 = self.carry.remove(0);
        }
        self.carry.push(byte);
        self.seen = Ghost(after);
        assert(self.carry@ =~= if after.len() < 3 {
            after
        } else {
            after.skip(after.len() - 3)
        });
    }

    /// Bytes consumed so far.
    pub fn position(&self) -> (r: u64)
        requires
            self.wf(),
        ensures
            r == self.stream().len(),
    {
        self.position
    }

    /// Markers found.
    pub fn count(&self) -> (r: u64)
        requires
            self.wf(),
        ensures
            r == markers(self.stream()).len(),
    {
        self.count
    }

    /// Where the first marker was.
    pub fn first(&self) -> (r: Option<u64>)
        requires
            self.wf(),
        ensures
            r is Some <==> markers(self.stream()).len() > 0,
            r matches Some(at) ==> at == markers(self.stream())[0],
    {
        proof {
            no_marker_is_counted_twice(self.seen@);
        }
        self.first
    }

    /// The most common marker-to-marker distance, and how many times it occurred. Of two as
    /// common, the shorter.
    pub fn modal_stride(&self) -> (r: Option<(u64, u64)>)
        requires
            self.wf(),
        ensures
            r is Some <==> interval_count(markers(self.stream())) > 0,
            r matches Some((stride, count)) ==> {
                &&& is_modal(markers(self.stream()), stride as int)
                &&& stride == modal_stride_of(markers(self.stream()))
                &&& count == strides_of(markers(self.stream()), stride as int)
                &&& count <= interval_count(markers(self.stream()))
            },
    {
        let mut best: Option<(u64, u64)> = None;
        let mut index: usize = 0;
        while index < self.strides.len()
            invariant
                index <= self.strides@.len(),
                is_tally(self.strides@),
                best is Some <==> index > 0,
                best matches Some((stride, count)) ==> {
                    &&& exists|i: int|
                        0 <= i < index && #[trigger] self.strides@[i] == (stride, count)
                    &&& forall|i: int|
                        0 <= i < index ==> (#[trigger] self.strides@[i]).1 < count || (
                        self.strides@[i].1 == count && stride <= self.strides@[i].0)
                },
            decreases self.strides@.len() - index,
        {
            let candidate: (u64, u64) = self.strides[index];
            let better = match best {
                None => true,
                Some((stride, count)) => candidate.1 > count || (candidate.1 == count
                    && candidate.0 < stride),
            };
            if better {
                best = Some(candidate);
                assert(self.strides@[index as int] == candidate);
            }
            index = index + 1;
        }
        proof {
            lemma_all_positive(self.strides@);
            if let Some((stride, count)) = best {
                let i = choose|i: int|
                    0 <= i < index && #[trigger] self.strides@[i] == (stride, count);
                lemma_counted(self.strides@, i);
                assert(counted(self.strides@, stride as int) == strides_of(
                    markers(self.stream()),
                    stride as int,
                ));
                assert forall|other: int|
                    {
                        let times = #[trigger] strides_of(markers(self.stream()), other);
                        times < count || (times == count && stride <= other)
                    } by {
                    assert(counted(self.strides@, other) == strides_of(
                        markers(self.stream()),
                        other,
                    ));
                    lemma_counted_is_listed(self.strides@, other);
                    if counted(self.strides@, other) > 0 {
                        let j = choose|j: int|
                            0 <= j < self.strides@.len() && (#[trigger] self.strides@[j]).0 == other
                                && self.strides@[j].1 == counted(self.strides@, other);
                        assert(self.strides@[j].1 <= count);
                    }
                }
                lemma_part_of_all(self.strides@, i);
                let places = markers(self.stream());
                assert(is_modal(places, stride as int));
                let modal = modal_stride_of(places);
                assert(is_modal(places, modal));
                assert(strides_of(places, modal) == strides_of(places, stride as int));
            }
        }
        best
    }

    /// How often a marker-to-marker distance occurred.
    pub fn times(&self, stride: u64) -> (r: u64)
        requires
            self.wf(),
        ensures
            r == strides_of(markers(self.stream()), stride as int),
    {
        assert(counted(self.strides@, stride as int) == strides_of(
            markers(self.stream()),
            stride as int,
        ));
        let mut index: usize = 0;
        while index < self.strides.len()
            invariant
                index <= self.strides@.len(),
                is_tally(self.strides@),
                forall|i: int| 0 <= i < index ==> (#[trigger] self.strides@[i]).0 != stride,
                counted(self.strides@, stride as int) == strides_of(
                    markers(self.stream()),
                    stride as int,
                ),
            decreases self.strides@.len() - index,
        {
            if self.strides[index].0 == stride {
                proof {
                    lemma_counted(self.strides@, index as int);
                }
                return self.strides[index].1;
            }
            index = index + 1;
        }
        proof {
            lemma_not_counted(self.strides@, stride as int);
        }
        0
    }

    /// How many strides there were in total.
    pub fn stride_count(&self) -> (r: u64)
        requires
            self.wf(),
        ensures
            r == interval_count(markers(self.stream())),
    {
        proof {
            no_marker_is_counted_twice(self.seen@);
        }
        if self.count == 0 {
            0
        } else {
            self.count - 1
        }
    }
}

proof fn lemma_part_of_all(strides: Seq<(u64, u64)>, index: int)
    requires
        0 <= index < strides.len(),
    ensures
        strides[index].1 <= counted_in_all(strides),
    decreases strides.len(),
{
    if index < strides.len() - 1 {
        lemma_part_of_all(strides.drop_last(), index);
    }
}

proof fn lemma_all_positive(strides: Seq<(u64, u64)>)
    requires
        is_tally(strides),
    ensures
        counted_in_all(strides) > 0 <==> strides.len() > 0,
{
    if strides.len() > 0 {
        assert(strides[strides.len() - 1].1 > 0);
    }
}

proof fn lemma_counted_is_listed(strides: Seq<(u64, u64)>, stride: int)
    ensures
        counted(strides, stride) > 0 ==> exists|i: int|
            0 <= i < strides.len() && (#[trigger] strides[i]).0 == stride && strides[i].1
                == counted(strides, stride),
    decreases strides.len(),
{
    if strides.len() > 0 {
        let last = strides.len() - 1;
        if strides[last].0 == stride {
            assert(strides[last].1 == counted(strides, stride));
        } else {
            let init = strides.drop_last();
            lemma_counted_is_listed(init, stride);
            if counted(strides, stride) > 0 {
                let i = choose|i: int|
                    0 <= i < init.len() && (#[trigger] init[i]).0 == stride && init[i].1 == counted(
                        init,
                        stride,
                    );
                assert(strides[i].0 == stride);
            }
        }
    }
}

/// A marker is found wherever it is: every place of a stream at which the four octets stand is
/// among its markers, and no other.
pub proof fn every_marker_is_found(stream: Seq<u8>, place: int)
    ensures
        markers(stream).contains(place) <==> 0 <= place && place + 4 <= stream.len()
            && stream.subrange(place, place + 4) == sync_marker(),
    decreases stream.len(),
{
    if stream.len() == 0 {
    } else {
        let init = stream.drop_last();
        every_marker_is_found(init, place);
        no_marker_is_counted_twice(init);
        let places = markers(stream);
        if ends_in_marker(stream) {
            assert(places.drop_last() =~= markers(init));
            assert(stream.skip(stream.len() - 4) =~= stream.subrange(
                stream.len() - 4,
                stream.len() as int,
            ));
            if place == stream.len() - 4 {
                assert(places[places.len() - 1] == place);
            } else if markers(init).contains(place) {
                let i = choose|i: int| 0 <= i < markers(init).len() && markers(init)[i] == place;
                assert(places[i] == place);
            }
            if places.contains(place) && place != stream.len() - 4 {
                let i = choose|i: int| 0 <= i < places.len() && places[i] == place;
                assert(markers(init)[i] == place);
            }
        } else if stream.len() >= 4 {
            assert(stream.skip(stream.len() - 4) =~= stream.subrange(
                stream.len() - 4,
                stream.len() as int,
            ));
        }
        if 0 <= place && place + 4 <= init.len() {
            assert(init.subrange(place, place + 4) =~= stream.subrange(place, place + 4));
        }
    }
}

/// Whether an interleaving depth is one that CCSDS 131.0-B-5 section 4 defines.
pub open spec fn is_ccsds_interleave(depth: int) -> bool {
    depth == 1 || depth == 2 || depth == 3 || depth == 4 || depth == 5 || depth == 8
}

/// Whether what is between two markers can be Reed-Solomon codewords.
pub open spec fn is_coded_block(block: int) -> bool {
    block % 255 == 0 && is_ccsds_interleave(block / 255)
}

/// The lines that turn a measured marker-to-marker stride into the flags that would read it.
pub open spec fn advice(stride: u64) -> Seq<Seq<char>> {
    let block = stride - 4;
    if block <= 0 {
        seq![
            "a stride of "@ + decimal(stride as nat)
                + " is shorter than the sync marker: these are not frames"@,
        ]
    } else if is_coded_block(block) {
        let depth = block / 255;
        seq![
            decimal(block as nat) + " octets between markers is "@ + decimal(depth as nat)
                + " x 255 (CCSDS 131.0-B-5 section 4): a Reed-Solomon coded link."@,
            "try --framing tm --rs 32 --interleave "@ + decimal(depth as nat)
                + " --frame-length "@ + decimal((depth * 223) as nat),
            "  or --framing tm --rs 16 --interleave "@ + decimal(depth as nat)
                + " --frame-length "@ + decimal((depth * 239) as nat)
                + " (E=8 instead of E=16)"@,
        ]
    } else {
        seq![
            decimal(block as nat)
                + " octets between markers is not a multiple of 255: an uncoded link."@,
            "try --framing tm --frame-length "@ + decimal(block as nat),
        ]
    }
}

/// The frame lengths that are advised for a stride.
pub open spec fn advised_lengths(stride: u64) -> Seq<int> {
    let block = stride - 4;
    if block <= 0 {
        Seq::empty()
    } else if is_coded_block(block) {
        seq![(block / 255) * 223, (block / 255) * 239]
    } else {
        seq![block]
    }
}

/// A stride is never handed back as a frame length: what is advised is shorter by the marker at
/// least, and by the parity too where the link is coded.
pub proof fn a_stride_is_not_a_frame_length(stride: u64, index: int)
    requires
        0 <= index < advised_lengths(stride).len(),
    ensures
        0 < advised_lengths(stride)[index] <= stride - 4,
        is_coded_block(stride - 4) ==> advised_lengths(stride)[index] + 16 * ((stride - 4) / 255)
            <= stride - 4,
{
    let block = stride - 4;
    if is_coded_block(block) {
        lemma_fundamental_div_mod(block, 255);
    }
}

/// Turns a measured marker-to-marker stride into the flags that would read it.
///
/// A stride is the attached sync marker plus one codeword block. A block that divides by 255
/// into a depth that is defined is Reed-Solomon. The parity cannot be recovered from the
/// stride, so both are offered.
pub fn advise(stride: u64) -> (r: Vec<String>)
    ensures
        text_views(r@) == advice(stride),
{
    let mut lines: Vec<String> = Vec::new();
    if stride <= 4 {
        let mut line: String = "a stride of ".to_owned();
        push_decimal(&mut line, stride);
        line.append(" is shorter than the sync marker: these are not frames");
        lines.push(line);
        assert(text_views(lines@) =~= advice(stride));
        return lines;
    }
    let block: u64 = stride - 4;
    let depth: u64 = block / CODEWORD_SYMBOLS;
    let defined = depth == 1 || depth == 2 || depth == 3 || depth == 4 || depth == 5 || depth == 8;
    if block % CODEWORD_SYMBOLS == 0 && defined {
        let mut first: String = String::new();
        push_decimal(&mut first, block);
        assert(first@ =~= decimal(block as nat));
        first.append(" octets between markers is ");
        push_decimal(&mut first, depth);
        first.append(" x 255 (CCSDS 131.0-B-5 section 4): a Reed-Solomon coded link.");
        let mut second: String = "try --framing tm --rs 32 --interleave ".to_owned();
        push_decimal(&mut second, depth);
        second.append(" --frame-length ");
        push_decimal(&mut second, depth * 223);
        let mut third: String = "  or --framing tm --rs 16 --interleave ".to_owned();
        push_decimal(&mut third, depth);
        third.append(" --frame-length ");
        push_decimal(&mut third, depth * 239);
        third.append(" (E=8 instead of E=16)");
        lines.push(first);
        lines.push(second);
        lines.push(third);
        assert(text_views(lines@) =~= advice(stride));
        return lines;
    }
    let mut first: String = String::new();
    push_decimal(&mut first, block);
    assert(first@ =~= decimal(block as nat));
    first.append(" octets between markers is not a multiple of 255: an uncoded link.");
    let mut second: String = "try --framing tm --frame-length ".to_owned();
    push_decimal(&mut second, block);
    lines.push(first);
    lines.push(second);
    assert(text_views(lines@) =~= advice(stride));
    lines
}

/// One counter and its name.
pub open spec fn counter_line(name: Seq<char>, value: u64) -> Seq<char> {
    "  "@ + left_aligned(name, 18) + " "@ + decimal(value as nat) + "\n"@
}

/// Every link counter, including the zeroes.
pub open spec fn counters_text(snapshot: StatsSnapshot) -> Seq<char> {
    "\nlink counters\n"@ + counter_line("bytes in"@, snapshot.bytes_in) + counter_line(
        "sync found"@,
        snapshot.sync_found,
    ) + counter_line("sync lost"@, snapshot.sync_lost) + counter_line(
        "frames seen"@,
        snapshot.frames_seen,
    ) + counter_line("frames ok"@, snapshot.frames_ok) + counter_line(
        "frames dropped"@,
        snapshot.frames_dropped,
    ) + counter_line("rs corrected"@, snapshot.rs_corrected) + counter_line(
        "rs symbols"@,
        snapshot.rs_symbols,
    ) + counter_line("rs uncorrectable"@, snapshot.rs_uncorrectable) + counter_line(
        "crc failures"@,
        snapshot.crc_failures,
    ) + counter_line("idle frames"@, snapshot.idle_frames) + counter_line(
        "idle packets"@,
        snapshot.idle_packets,
    ) + counter_line("packets in"@, snapshot.packets_in) + counter_line(
        "packets lost"@,
        snapshot.packets_lost,
    )
}

fn push_counter(out: &mut String, name: &str, value: u64)
    ensures
        final(out)@ == old(out)@ + counter_line(name@, value),
{
    let mut line: String = "  ".to_owned();
    push_left(&mut line, name, 18);
    line.append(" ");
    push_decimal(&mut line, value);
    line.append("\n");
    out.append(line.as_str());
}

/// Every link counter, including the zeroes.
pub fn report_counters(snapshot: &StatsSnapshot) -> (r: String)
    ensures
        r@ == counters_text(*snapshot),
{
    let mut out: String = "\nlink counters\n".to_owned();
    push_counter(&mut out, "bytes in", snapshot.bytes_in);
    push_counter(&mut out, "sync found", snapshot.sync_found);
    push_counter(&mut out, "sync lost", snapshot.sync_lost);
    push_counter(&mut out, "frames seen", snapshot.frames_seen);
    push_counter(&mut out, "frames ok", snapshot.frames_ok);
    push_counter(&mut out, "frames dropped", snapshot.frames_dropped);
    push_counter(&mut out, "rs corrected", snapshot.rs_corrected);
    push_counter(&mut out, "rs symbols", snapshot.rs_symbols);
    push_counter(&mut out, "rs uncorrectable", snapshot.rs_uncorrectable);
    push_counter(&mut out, "crc failures", snapshot.crc_failures);
    push_counter(&mut out, "idle frames", snapshot.idle_frames);
    push_counter(&mut out, "idle packets", snapshot.idle_packets);
    push_counter(&mut out, "packets in", snapshot.packets_in);
    push_counter(&mut out, "packets lost", snapshot.packets_lost);
    out
}

/// How many APIDs packets were seen on.
pub open spec fn apids_seen(tallies: Seq<ApidTally>) -> nat
    decreases tallies.len(),
{
    if tallies.len() == 0 {
        0
    } else {
        apids_seen(tallies.drop_last()) + (if tallies.last().count > 0 {
            1nat
        } else {
            0nat
        })
    }
}

/// What is said of one APID.
pub open spec fn tally_row(apid: nat, tally: ApidTally) -> Seq<char> {
    "  "@ + right_aligned(decimal(apid), ' ', 5) + "  "@ + right_aligned(
        decimal(tally.count as nat),
        ' ',
        9,
    ) + "  "@ + right_aligned(decimal(tally.shortest as nat), ' ', 6) + "  "@ + right_aligned(
        decimal(tally.longest as nat),
        ' ',
        6,
    ) + "  "@ + right_aligned(decimal(tally.gaps as nat), ' ', 6) + "  "@ + right_aligned(
        decimal(tally.missing as nat),
        ' ',
        8,
    ) + "\n"@
}

/// The rows of the APIDs that packets were seen on, in order.
pub open spec fn tally_rows(tallies: Seq<ApidTally>) -> Seq<char>
    decreases tallies.len(),
{
    if tallies.len() == 0 {
        Seq::empty()
    } else if tallies.last().count > 0 {
        tally_rows(tallies.drop_last()) + tally_row((tallies.len() - 1) as nat, tallies.last())
    } else {
        tally_rows(tallies.drop_last())
    }
}

/// The rows of the first few packets, in the order they arrived.
pub open spec fn first_rows(first: Seq<(u16, u16, usize)>) -> Seq<char>
    decreases first.len(),
{
    if first.len() == 0 {
        Seq::empty()
    } else {
        first_rows(first.drop_last()) + first_row(first.last())
    }
}

/// What is said of one packet.
pub open spec fn first_row(packet: (u16, u16, usize)) -> Seq<char> {
    "  "@ + right_aligned(decimal(packet.0 as nat), ' ', 5) + "  "@ + right_aligned(
        decimal(packet.1 as nat),
        ' ',
        9,
    ) + "  "@ + right_aligned(decimal(packet.2 as nat), ' ', 6) + "\n"@
}

/// The columns of the APIDs.
pub const TALLY_COLUMNS: &'static str = "   apid    packets     min     max    gaps   missing\n";

/// The columns of the first few packets.
pub const FIRST_COLUMNS: &'static str = "   apid   sequence  length\n";

/// The APIDs that were seen, and the first few packets in the order they arrived.
pub open spec fn packets_text(tallies: Seq<ApidTally>, first: Seq<(u16, u16, usize)>) -> Seq<char> {
    let head = "\napids: "@ + decimal(apids_seen(tallies)) + "\n"@;
    let columns = if apids_seen(tallies) > 0 {
        head + TALLY_COLUMNS@
    } else {
        head
    };
    let rows = columns + tally_rows(tallies);
    if first.len() > 0 {
        rows + "\nfirst "@ + decimal(first.len()) + " packets\n"@ + FIRST_COLUMNS@ + first_rows(
            first,
        )
    } else {
        rows
    }
}

fn push_tally_row(out: &mut String, apid: usize, tally: &ApidTally)
    ensures
        final(out)@ == old(out)@ + tally_row(apid as nat, *tally),
{
    let mut line: String = "  ".to_owned();
    push_right(&mut line, apid as u64, 5);
    line.append("  ");
    push_right(&mut line, tally.count, 9);
    line.append("  ");
    push_right(&mut line, tally.shortest as u64, 6);
    line.append("  ");
    push_right(&mut line, tally.longest as u64, 6);
    line.append("  ");
    push_right(&mut line, tally.gaps, 6);
    line.append("  ");
    push_right(&mut line, tally.missing, 8);
    line.append("\n");
    out.append(line.as_str());
}

fn push_first_row(out: &mut String, packet: &(u16, u16, usize))
    ensures
        final(out)@ == old(out)@ + first_row(*packet),
{
    let mut line: String = "  ".to_owned();
    push_right(&mut line, packet.0 as u64, 5);
    line.append("  ");
    push_right(&mut line, packet.1 as u64, 9);
    line.append("  ");
    push_right(&mut line, packet.2 as u64, 6);
    line.append("\n");
    out.append(line.as_str());
}

/// The APIDs that were seen, and the first few packets in the order they arrived.
pub fn report_packets(apids: &Vec<ApidTally>, first: &Vec<(u16, u16, usize)>) -> (r: String)
    ensures
        r@ == packets_text(apids@, first@),
{
    let mut seen: usize = 0;
    let mut rows: String = String::new();
    let mut index: usize = 0;
    assert(rows@ =~= tally_rows(apids@.take(0)));
    while index < apids.len()
        invariant
            index <= apids@.len(),
            seen <= index,
            seen == apids_seen(apids@.take(index as int)),
            rows@ == tally_rows(apids@.take(index as int)),
        decreases apids@.len() - index,
    {
        assert(apids@.take(index + 1).drop_last() =~= apids@.take(index as int));
        if apids[index].count > 0 {
            seen = seen + 1;
            push_tally_row(&mut rows, index, &apids[index]);
        }
        index = index + 1;
    }
    assert(apids@.take(index as int) =~= apids@);
    let mut out: String = "\napids: ".to_owned();
    push_decimal(&mut out, seen as u64);
    out.append("\n");
    if seen > 0 {
        out.append(TALLY_COLUMNS);
    }
    out.append(rows.as_str());
    if first.len() > 0 {
        let mut listed: String = String::new();
        let mut place: usize = 0;
        assert(listed@ =~= first_rows(first@.take(0)));
        while place < first.len()
            invariant
                place <= first@.len(),
                listed@ == first_rows(first@.take(place as int)),
            decreases first@.len() - place,
        {
            assert(first@.take(place + 1).drop_last() =~= first@.take(place as int));
            push_first_row(&mut listed, &first[place]);
            place = place + 1;
        }
        assert(first@.take(place as int) =~= first@);
        out.append("\nfirst ");
        push_decimal(&mut out, first.len() as u64);
        out.append(" packets\n");
        out.append(FIRST_COLUMNS);
        out.append(listed.as_str());
    }
    out
}

/// How well one frame length fits the distances between the markers.
pub open spec fn candidate_row(places: Seq<int>, candidate: u64) -> Seq<char> {
    "  "@ + right_aligned(decimal(candidate as nat), ' ', 5) + ": "@ + decimal(
        strides_of(places, candidate as int),
    ) + " intervals at "@ + decimal(candidate as nat) + ", "@ + decimal(
        strides_of(places, candidate + 4),
    ) + " at "@ + decimal((candidate + 4) as nat) + " (marker included)\n"@
}

/// Lines, each indented.
pub open spec fn indented(lines: Seq<Seq<char>>) -> Seq<char>
    decreases lines.len(),
{
    if lines.len() == 0 {
        Seq::empty()
    } else {
        indented(lines.drop_last()) + ("  "@ + lines.last() + "\n"@)
    }
}

/// Where the attached sync markers are, and which frame length fits the distance between them.
pub open spec fn frame_trial_text(places: Seq<int>, total: u64) -> Seq<char> {
    let head = "\ntransfer frames\n  sync markers found: "@ + decimal(places.len()) + "\n"@;
    if places.len() == 0 {
        head + "  no 0x1ACFFC1D in "@ + decimal(total as nat)
            + " bytes. Either this is not a transfer frame stream, or\n  the markers were stripped by the receiver — try --framing tm --no-asm with a\n  --frame-length the mission gave you.\n"@
    } else {
        let found = head + "  first marker at: "@ + decimal(places[0] as nat) + "\n"@;
        let stride = modal_stride_of(places);
        let count = strides_of(places, stride);
        let measured = if places.len() == 1 {
            found + "  only one marker: no stride to measure\n"@
        } else {
            found + "  most common stride: "@ + decimal(stride as nat) + " bytes, "@ + decimal(
                count,
            ) + " of "@ + decimal(interval_count(places)) + " intervals\n"@
        };
        let tried = measured + candidate_row(places, 1115) + candidate_row(places, 1279)
            + candidate_row(places, 2048) + candidate_row(places, 892);
        if places.len() == 1 {
            tried
        } else {
            let doubted = if count * 2 < interval_count(places) {
                tried + "  the stride is not consistent: "@ + decimal(count) + " of "@ + decimal(
                    interval_count(places),
                )
                    + " intervals. The markers are probably\n  in the data rather than between frames.\n"@
            } else {
                tried
            };
            doubted + indented(advice(stride as u64))
        }
    }
}

fn push_candidate(out: &mut String, scan: &MarkerScan, candidate: u64)
    requires
        scan.wf(),
        candidate < 100_000,
    ensures
        final(out)@ == old(out)@ + candidate_row(markers(scan.stream()), candidate),
{
    let mut line: String = "  ".to_owned();
    push_right(&mut line, candidate, 5);
    line.append(": ");
    push_decimal(&mut line, scan.times(candidate));
    line.append(" intervals at ");
    push_decimal(&mut line, candidate);
    line.append(", ");
    push_decimal(&mut line, scan.times(candidate + 4));
    line.append(" at ");
    push_decimal(&mut line, candidate + 4);
    line.append(" (marker included)\n");
    out.append(line.as_str());
}

fn indent(lines: &Vec<String>) -> (r: String)
    ensures
        r@ == indented(text_views(lines@)),
{
    let mut out: String = String::new();
    let mut index: usize = 0;
    let ghost views = text_views(lines@);
    assert(out@ =~= indented(views.take(0)));
    while index < lines.len()
        invariant
            index <= lines@.len(),
            views == text_views(lines@),
            out@ == indented(views.take(index as int)),
        decreases lines@.len() - index,
    {
        assert(views.take(index + 1).drop_last() =~= views.take(index as int));
        let mut line: String = "  ".to_owned();
        line.append(lines[index].as_str());
        line.append("\n");
        out.append(line.as_str());
        index = index + 1;
    }
    assert(views.take(index as int) =~= views);
    out
}

/// Where the attached sync markers are, and which frame length fits the distance between them.
///
/// The marker is the one of CCSDS 131.0-B-5 section 9.3, and the distance between two of them
/// is the codeword plus the marker: the frame plus the Reed-Solomon parity, if there is any. So
/// each candidate is tried twice: as the distance itself, and as a frame with the four marker
/// octets in front of it. The advice comes from the measured stride and not from whichever
/// candidate matched.
pub fn report_frame_trial(scan: &MarkerScan, total: u64) -> (r: String)
    requires
        scan.wf(),
    ensures
        r@ == frame_trial_text(markers(scan.stream()), total),
{
    let count: u64 = scan.count();
    let mut out: String = "\ntransfer frames\n  sync markers found: ".to_owned();
    push_decimal(&mut out, count);
    out.append("\n");
    let first: u64 = match scan.first() {
        Some(at) => at,
        None => {
            out.append("  no 0x1ACFFC1D in ");
            push_decimal(&mut out, total);
            out.append(
                " bytes. Either this is not a transfer frame stream, or\n  the markers were stripped by the receiver — try --framing tm --no-asm with a\n  --frame-length the mission gave you.\n",
            );
            return out;
        },
    };
    out.append("  first marker at: ");
    push_decimal(&mut out, first);
    out.append("\n");
    let modal = scan.modal_stride();
    let intervals: u64 = scan.stride_count();
    match modal {
        Some((stride, times)) => {
            out.append("  most common stride: ");
            push_decimal(&mut out, stride);
            out.append(" bytes, ");
            push_decimal(&mut out, times);
            out.append(" of ");
            push_decimal(&mut out, intervals);
            out.append(" intervals\n");
        },
        None => {
            out.append("  only one marker: no stride to measure\n");
        },
    }
    push_candidate(&mut out, scan, 1115);
    push_candidate(&mut out, scan, 1279);
    push_candidate(&mut out, scan, 2048);
    push_candidate(&mut out, scan, 892);
    if let Some((stride, times)) = modal {
        if times < intervals - times {
            out.append("  the stride is not consistent: ");
            push_decimal(&mut out, times);
            out.append(" of ");
            push_decimal(&mut out, intervals);
            out.append(
                " intervals. The markers are probably\n  in the data rather than between frames.\n",
            );
        }
        let lines = advise(stride);
        out.append(indent(&lines).as_str());
    }
    out
}

/// What a probe has been told so far, and what it is to say of it.
pub struct Probe {
    scan: MarkerScan,
    apids: Vec<ApidTally>,
    first: Vec<(u16, u16, usize)>,
    limit: Option<u64>,
    sample: usize,
}

/// What a probe is, to a caller.
pub struct ProbeView {
    /// The bytes that were taken.
    pub stream: Seq<u8>,
    /// What each APID looked like.
    pub tallies: Seq<ApidTally>,
    /// The first few packets: APID, sequence count and length of each.
    pub first: Seq<(u16, u16, usize)>,
    /// How many bytes to take at most.
    pub limit: Option<u64>,
    /// How many packets to list.
    pub sample: nat,
}

impl View for Probe {
    type V = ProbeView;

    closed spec fn view(&self) -> ProbeView {
        ProbeView {
            stream: self.scan.stream(),
            tallies: self.apids@,
            first: self.first@,
            limit: self.limit,
            sample: self.sample as nat,
        }
    }
}

/// How many of `count` bytes there is room for behind `held`.
pub open spec fn room_for(limit: Option<u64>, held: int, count: int) -> int {
    match limit {
        None => count,
        Some(max) => if max - held <= 0 {
            0
        } else if max - held < count {
            max - held
        } else {
            count
        },
    }
}

/// What is filed of a packet: its APID and sequence count, zero where it is too short to have
/// them, and its length.
pub open spec fn filed(bytes: Seq<u8>) -> (u16, u16, usize) {
    if bytes.len() >= 6 {
        (apid_of(bytes) as u16, count_of(bytes) as u16, bytes.len() as usize)
    } else {
        (0, 0, bytes.len() as usize)
    }
}

/// A probe after one more packet.
pub open spec fn packet_filed(probe: ProbeView, bytes: Seq<u8>) -> ProbeView {
    let (apid, sequence, length) = filed(bytes);
    ProbeView {
        tallies: probe.tallies.update(
            apid as int,
            tallied(probe.tallies[apid as int], length, sequence),
        ),
        first: if probe.first.len() < probe.sample {
            probe.first.push(filed(bytes))
        } else {
            probe.first
        },
        ..probe
    }
}

impl Probe {
    /// What every probe keeps.
    pub closed spec fn wf(&self) -> bool {
        &&& self.scan.wf()
        &&& self.apids@.len() == 2048
        &&& self@.limit matches Some(max) ==> self@.stream.len() <= max
    }

    /// No more of a stream is looked at than the limit.
    pub proof fn no_more_is_taken_than_the_limit(&self)
        requires
            self.wf(),
        ensures
            self@.limit matches Some(max) ==> self@.stream.len() <= max,
    {
    }

    /// A probe of nothing.
    pub fn new(limit: Option<u64>, sample: usize) -> (r: Self)
        ensures
            r.wf(),
            r@ == (ProbeView {
                stream: Seq::empty(),
                tallies: Seq::new(2048, |apid: int| empty_tally()),
                first: Seq::empty(),
                limit,
                sample: sample as nat,
            }),
    {
        let mut apids: Vec<ApidTally> = Vec::new();
        while apids.len() < APID_COUNT
            invariant
                apids@.len() <= 2048,
                APID_COUNT == 2048,
                forall|i: int| 0 <= i < apids@.len() ==> apids@[i] == empty_tally(),
            decreases 2048 - apids@.len(),
        {
            apids.push(ApidTally::empty());
        }
        assert(apids@ =~= Seq::new(2048, |apid: int| empty_tally()));
        let r = Probe { scan: MarkerScan::new(), apids, first: Vec::new(), limit, sample };
        assert(r@.first =~= Seq::empty());
        r
    }

    /// Takes what a read brought: cuts it to what there is still room for, and scans that.
    /// Whether the read is to be used and another to follow it.
    pub fn take(&mut self, bytes: &mut Vec<u8>) -> (r: bool)
        requires
            old(self).wf(),
            old(self)@.stream.len() + old(bytes)@.len() <= u64::MAX,
        ensures
            final(self).wf(),
            r == (room_for(old(self)@.limit, old(self)@.stream.len() as int, old(bytes)@.len() as int)
                > 0),
            r ==> final(bytes)@ == old(bytes)@.take(
                room_for(old(self)@.limit, old(self)@.stream.len() as int, old(bytes)@.len() as int),
            ),
            !r ==> final(bytes)@ == old(bytes)@,
            final(self)@ == (ProbeView {
                stream: if r {
                    old(self)@.stream + final(bytes)@
                } else {
                    old(self)@.stream
                },
                ..old(self)@
            }),
    {
        if bytes.len() == 0 {
            return false;
        }
        if let Some(max) = self.limit {
            let room: u64 = max - self.scan.position();
            if room == 0 {
                return false;
            }
            if room < bytes.len() as u64 {
                bytes.truncate(room as usize);
            }
        }
        assert(bytes@ =~= old(bytes)@.take(
            room_for(old(self)@.limit, old(self)@.stream.len() as int, old(bytes)@.len() as int),
        ));
        self.scan.push(bytes.as_slice());
        true
    }

    /// Files one packet.
    pub fn file(&mut self, packet: &RawPacket)
        requires
            old(self).wf(),
        ensures
            final(self).wf(),
            final(self)@ == packet_filed(old(self)@, packet.bytes@),
            final(self)@ == (ProbeView {
                tallies: old(self)@.tallies.update(
                    filed(packet.bytes@).0 as int,
                    tallied(
                        old(self)@.tallies[filed(packet.bytes@).0 as int],
                        filed(packet.bytes@).2,
                        filed(packet.bytes@).1,
                    ),
                ),
                first: if old(self)@.first.len() < old(self)@.sample {
                    old(self)@.first.push(filed(packet.bytes@))
                } else {
                    old(self)@.first
                },
                ..old(self)@
            }),
    {
        let apid: u16 = match packet.apid() {
            Some(apid) => apid,
            None => 0,
        };
        let sequence: u16 = match packet.sequence_count() {
            Some(sequence) => sequence,
            None => 0,
        };
        let length: usize = packet.len();
        if self.first.len() < self.sample {
            self.first.push((apid, sequence, length));
        }
        let mut tally: ApidTally = self.apids[apid as usize];
        tally.observe(length, sequence);
        self.apids[apid as usize] = tally;
    }

    /// What there is to say of the stream.
    pub fn report(&self, source: &str, snapshot: &StatsSnapshot) -> (r: String)
        requires
            self.wf(),
        ensures
            r@ == "stream: "@ + source@ + "\nread:   "@ + decimal(self@.stream.len()) + " bytes\n"@
                + counters_text(*snapshot) + packets_text(self@.tallies, self@.first)
                + frame_trial_text(markers(self@.stream), self@.stream.len() as u64),
    {
        let total: u64 = self.scan.position();
        let mut out: String = "stream: ".to_owned();
        out.append(source);
        out.append("\nread:   ");
        push_decimal(&mut out, total);
        out.append(" bytes\n");
        out.append(report_counters(snapshot).as_str());
        out.append(report_packets(&self.apids, &self.first).as_str());
        out.append(report_frame_trial(&self.scan, total).as_str());
        out
    }
}

} // verus!
