//! The queue between the acquisition side and the decode side.
//!
//! The queue is bounded, and a bounded queue that fills has to lose something: time, or
//! packets. A file replay waits. A live link drops, at the old end, and counts it: when the
//! overload passes, what is left is the most recent telemetry. The channel cannot evict its own
//! oldest element, so the live path keeps an overflow ring in front of it and evicts there.
//! Nothing newer is ever thrown away to make room for something older.

use std::collections::VecDeque;

use vstd::prelude::*;

use crate::packet::RawPacket;
use crate::stats::wrapped_sum;

verus! {

/// Packets the acquisition side may run ahead of the decoder by.
pub const PACKET_QUEUE_DEPTH: usize = 1024;

/// What the acquisition side sends the decode side.
///
/// A byte stream can restart underneath a station, and the decode side holds state that is
/// wrong across that boundary. The restart travels in the same queue as the packets, because it
/// has a place among them.
#[derive(Debug)]
pub enum Acquired {
    /// One packet off the link.
    Packet(RawPacket),
    /// The byte stream restarted: drop partial state and reset sequence tracking.
    Restart,
}

/// What the channel said of an item it was offered.
#[derive(Debug)]
pub enum Answer {
    /// It took it.
    Sent,
    /// It has no room, and hands the item back.
    Full(Acquired),
    /// Nobody is at the other end.
    Closed,
}

/// What to do next.
#[derive(Debug)]
pub enum Step {
    /// Offer this item to the channel, without waiting, and come back with its answer.
    Offer(Acquired),
    /// Wait until the channel has room, and send it this item.
    Wait(Acquired),
    /// Nothing: it is sent, or it is in the ring.
    Done,
    /// The decode side is gone.
    Gone,
}

/// The acquisition side of the queue: the overflow ring in front of the channel.
#[derive(Debug)]
pub struct Dispatch {
    backlog: VecDeque<Acquired>,
    capacity: usize,
    lossy: bool,
    dropped: u64,
    pending: Option<Acquired>,
    offering_ring: bool,
}

/// What a dispatcher holds.
#[verifier::ext_equal]
pub struct DispatchView {
    /// The items of the ring, oldest first.
    pub ring: Seq<Acquired>,
    /// How many items the ring holds before a packet has to make way for the next item. Markers
    /// never make way, so a ring that is full of them still takes another.
    pub capacity: nat,
    /// Whether the oldest packet makes way when it is full.
    pub lossy: bool,
    /// How many packets have made way.
    pub dropped: u64,
    /// The item behind the ring that is on its way.
    pub pending: Option<Acquired>,
    /// Whether the item last offered to the channel came out of the ring.
    pub offering_ring: bool,
}

impl View for Dispatch {
    type V = DispatchView;

    closed spec fn view(&self) -> DispatchView {
        DispatchView {
            ring: self.backlog@,
            capacity: self.capacity as nat,
            lossy: self.lossy,
            dropped: self.dropped,
            pending: self.pending,
            offering_ring: self.offering_ring,
        }
    }
}

/// The place of the oldest packet among queued items, or how many there are where none is one.
pub open spec fn oldest_packet(items: Seq<Acquired>) -> int
    decreases items.len(),
{
    if items.len() == 0 {
        0
    } else if items[0] is Packet {
        0
    } else {
        1 + oldest_packet(items.skip(1))
    }
}

/// A dispatcher with one more item in its ring. Where the ring is full its oldest packet makes
/// way; where it is full of markers, a packet that comes is the one that is not kept.
pub open spec fn ringed(dispatch: DispatchView, item: Acquired) -> DispatchView {
    let oldest = oldest_packet(dispatch.ring);
    if dispatch.ring.len() < dispatch.capacity {
        DispatchView { ring: dispatch.ring.push(item), ..dispatch }
    } else if oldest < dispatch.ring.len() {
        DispatchView {
            ring: dispatch.ring.remove(oldest).push(item),
            dropped: wrapped_sum(dispatch.dropped, 1),
            ..dispatch
        }
    } else if item is Packet {
        DispatchView { dropped: wrapped_sum(dispatch.dropped, 1), ..dispatch }
    } else {
        DispatchView { ring: dispatch.ring.push(item), ..dispatch }
    }
}

/// A dispatcher and what it does next, where the channel may have room: the ring goes first,
/// and the item behind it only once the ring is empty.
pub open spec fn offered(dispatch: DispatchView) -> (DispatchView, Step) {
    if dispatch.ring.len() > 0 {
        (
            DispatchView { ring: dispatch.ring.skip(1), offering_ring: true, ..dispatch },
            Step::Offer(dispatch.ring[0]),
        )
    } else {
        match dispatch.pending {
            Some(item) => (
                DispatchView { pending: None, offering_ring: false, ..dispatch },
                Step::Offer(item),
            ),
            None => (dispatch, Step::Done),
        }
    }
}

/// A dispatcher and what it does next with an item for which the channel has no room.
pub open spec fn held_back(dispatch: DispatchView, item: Acquired) -> (DispatchView, Step) {
    if dispatch.lossy {
        (ringed(dispatch, item), Step::Done)
    } else {
        (dispatch, Step::Wait(item))
    }
}

/// A dispatcher and what it does next, after the channel's answer to what it was offered.
pub open spec fn answered(dispatch: DispatchView, answer: Answer) -> (DispatchView, Step) {
    match answer {
        Answer::Sent => offered(dispatch),
        Answer::Closed => (DispatchView { pending: None, ..dispatch }, Step::Gone),
        Answer::Full(item) => if dispatch.offering_ring {
            let back = DispatchView {
                ring: seq![item] + dispatch.ring,
                pending: None,
                ..dispatch
            };
            match dispatch.pending {
                Some(behind) => held_back(back, behind),
                None => (back, Step::Done),
            }
        } else {
            held_back(dispatch, item)
        },
    }
}

impl Dispatch {
    /// A dispatcher whose ring holds `capacity` items of overflow, and no packet beyond them: only
    /// a marker is taken into a ring that is full of markers.
    ///
    /// `lossy` is the live-link policy: drop the oldest packet in the ring when it is full. A
    /// replay is not lossy and waits instead.
    pub fn new(capacity: usize, lossy: bool) -> (r: Self)
        ensures
            r@ == (DispatchView {
                ring: Seq::empty(),
                capacity: capacity as nat,
                lossy,
                dropped: 0,
                pending: None,
                offering_ring: false,
            }),
    {
        Dispatch {
            backlog: VecDeque::new(),
            capacity,
            lossy,
            dropped: 0,
            pending: None,
            offering_ring: false,
        }
    }

    /// Whether anything is waiting in front of the channel.
    pub fn is_backed_up(&self) -> (r: bool)
        ensures
            r == (self@.ring.len() > 0),
    {
        self.backlog.len() > 0
    }

    /// How many packets have been dropped for want of room.
    pub fn dropped(&self) -> (r: u64)
        ensures
            r == self@.dropped,
    {
        self.dropped
    }

    /// Starts moving as much of the ring into the channel as fits right now.
    pub fn flush(&mut self) -> (r: Step)
        ensures
            (final(self)@, r) == offered(DispatchView { pending: None, ..old(self)@ }),
    {
        self.pending = None;
        self.offer()
    }

    /// Starts handing one item to the decode side, by whichever policy this source has.
    ///
    /// The ring is emptied into the channel before anything new is offered to it, so a
    /// [`Acquired::Restart`] can never overtake the packets it comes after.
    pub fn send(&mut self, item: Acquired) -> (r: Step)
        ensures
            (final(self)@, r) == offered(DispatchView { pending: Some(item), ..old(self)@ }),
    {
        self.pending = Some(item);
        self.offer()
    }

    /// Goes on from the channel's answer to the item it was last offered.
    pub fn answer(&mut self, answer: Answer) -> (r: Step)
        ensures
            (final(self)@, r) == answered(old(self)@, answer),
    {
        match answer {
            Answer::Sent => self.offer(),
            Answer::Closed => {
                self.pending = None;
                Step::Gone
            },
            Answer::Full(item) => if self.offering_ring {
                self.backlog.push_front(item);
                match self.pending.take() {
                    Some(behind) => self.hold_back(behind),
                    None => Step::Done,
                }
            } else {
                self.hold_back(item)
            },
        }
    }

    fn offer(&mut self) -> (r: Step)
        ensures
            (final(self)@, r) == offered(old(self)@),
    {
        match self.backlog.pop_front() {
            Some(item) => {
                assert(self.backlog@ =~= old(self)@.ring.skip(1));
                self.offering_ring = true;
                Step::Offer(item)
            },
            None => match self.pending.take() {
                Some(item) => {
                    self.offering_ring = false;
                    Step::Offer(item)
                },
                None => Step::Done,
            },
        }
    }

    fn hold_back(&mut self, item: Acquired) -> (r: Step)
        ensures
            (final(self)@, r) == held_back(old(self)@, item),
    {
        if self.lossy {
            self.push(item);
            Step::Done
        } else {
            Step::Wait(item)
        }
    }

    /// The place of the oldest packet in the ring.
    fn find_packet(&self) -> (r: usize)
        ensures
            r == oldest_packet(self@.ring),
            r <= self@.ring.len(),
    {
        let mut index: usize = 0;
        assert(self.backlog@.skip(0) =~= self.backlog@);
        while index < self.backlog.len()
            invariant
                index <= self.backlog@.len(),
                oldest_packet(self.backlog@) == index + oldest_packet(
                    self.backlog@.skip(index as int),
                ),
            decreases self.backlog@.len() - index,
        {
            let is_packet = match &self.backlog[index] {
                Acquired::Packet(_) => true,
                Acquired::Restart => false,
            };
            assert(self.backlog@.skip(index as int)[0] == self.backlog@[index as int]);
            if is_packet {
                return index;
            }
            assert(self.backlog@.skip(index as int).skip(1) =~= self.backlog@.skip(index + 1));
            index = index + 1;
        }
        index
    }

    /// Appends to the ring, dropping its oldest packet when it is full. The live policy.
    ///
    /// A [`Acquired::Restart`] in the ring is never what gets dropped: losing it leaves the
    /// decode side holding state from before a stream boundary. Dropping the oldest packet
    /// costs one packet; dropping the marker costs the rest of the pass.
    pub fn push(&mut self, item: Acquired)
        ensures
            final(self)@ == ringed(old(self)@, item),
    {
        if self.backlog.len() >= self.capacity {
            let index: usize = self.find_packet();
            if index < self.backlog.len() {
                let _oldest = self.backlog.remove(index);
                self.dropped = self.dropped.wrapping_add(1);
            } else {
                let is_packet = match &item {
                    Acquired::Packet(_) => true,
                    Acquired::Restart => false,
                };
                if is_packet {
                    self.dropped = self.dropped.wrapping_add(1);
                    return;
                }
            }
        }
        self.backlog.push_back(item);
    }

    /// Takes the next item of the ring, to wait for room and send, at the end of a stream.
    pub fn drain(&mut self) -> (r: Option<Acquired>)
        ensures
            match r {
                Some(item) => {
                    &&& old(self)@.ring.len() > 0
                    &&& item == old(self)@.ring[0]
                    &&& final(self)@ == (DispatchView { ring: old(self)@.ring.skip(1), ..old(self)@ })
                },
                None => old(self)@.ring.len() == 0 && final(self)@ == old(self)@,
            },
    {
        match self.backlog.pop_front() {
            Some(item) => {
                assert(self.backlog@ =~= old(self)@.ring.skip(1));
                Some(item)
            },
            None => None,
        }
    }
}

/// How many of several items are restarts.
pub open spec fn restarts(items: Seq<Acquired>) -> nat {
    items.filter(|item: Acquired| item is Restart).len()
}

/// How many of several items are packets.
pub open spec fn packets(items: Seq<Acquired>) -> nat {
    items.filter(|item: Acquired| item is Packet).len()
}

proof fn lemma_oldest_packet(items: Seq<Acquired>)
    ensures
        0 <= oldest_packet(items) <= items.len(),
        oldest_packet(items) < items.len() ==> items[oldest_packet(items)] is Packet,
        forall|i: int| 0 <= i < oldest_packet(items) ==> (#[trigger] items[i]) is Restart,
    decreases items.len(),
{
    if items.len() > 0 && !(items[0] is Packet) {
        let rest = items.skip(1);
        lemma_oldest_packet(rest);
        assert forall|i: int| 0 <= i < oldest_packet(items) implies (
        #[trigger] items[i]) is Restart by {
            if i > 0 {
                assert(rest[i - 1] is Restart);
            }
        }
    }
}

proof fn lemma_filter_concat<T>(a: Seq<T>, b: Seq<T>, keep: spec_fn(T) -> bool)
    ensures
        (a + b).filter(keep) == a.filter(keep) + b.filter(keep),
{
    Seq::filter_distributes_over_add(a, b, keep);
}

proof fn lemma_counts(a: Seq<Acquired>, item: Acquired, b: Seq<Acquired>)
    ensures
        restarts(a + b) == restarts(a) + restarts(b),
        packets(a + b) == packets(a) + packets(b),
        restarts(a.push(item)) == restarts(a) + (if item is Restart {
            1nat
        } else {
            0nat
        }),
        packets(a.push(item)) == packets(a) + (if item is Packet {
            1nat
        } else {
            0nat
        }),
        restarts(a) + packets(a) == a.len(),
    decreases a.len(),
{
    let is_restart = |item: Acquired| item is Restart;
    let is_packet = |item: Acquired| item is Packet;
    lemma_filter_concat(a, b, is_restart);
    lemma_filter_concat(a, b, is_packet);
    reveal(Seq::filter);
    assert(a.push(item).drop_last() =~= a);
    if a.len() > 0 {
        lemma_counts(a.drop_last(), item, b);
        assert(a.drop_last().push(a.last()) =~= a);
    }
}

/// A restart is never dropped: however full the ring, the markers in it stay and the one that
/// comes joins them.
pub proof fn restarts_are_never_dropped(dispatch: DispatchView, item: Acquired)
    ensures
        restarts(ringed(dispatch, item).ring) == restarts(dispatch.ring) + (if item is Restart {
            1nat
        } else {
            0nat
        }),
{
    let ring = dispatch.ring;
    lemma_oldest_packet(ring);
    let oldest = oldest_packet(ring);
    lemma_counts(ring, item, Seq::empty());
    if oldest < ring.len() {
        let a = ring.take(oldest);
        let b = ring.skip(oldest + 1);
        assert(ring =~= a.push(ring[oldest]) + b);
        assert(ring.remove(oldest) =~= a + b);
        lemma_counts(a, ring[oldest], b);
        lemma_counts(a.push(ring[oldest]), item, b);
        lemma_counts(a + b, item, Seq::empty());
    }
}

/// What becomes of the packets of a ring when one more item comes.
pub(crate) proof fn lemma_ringed_counts(dispatch: DispatchView, item: Acquired)
    requires
        dispatch.dropped < u64::MAX,
    ensures
        ({
            let after = ringed(dispatch, item);
            let come = if item is Packet {
                1int
            } else {
                0
            };
            &&& packets(after.ring) + (after.dropped - dispatch.dropped) == packets(dispatch.ring)
                + come
            &&& dispatch.dropped <= after.dropped <= dispatch.dropped + 1
            &&& packets(dispatch.ring) > 0 <==> oldest_packet(dispatch.ring) < dispatch.ring.len()
            &&& 0 <= oldest_packet(dispatch.ring)
        }),
{
    let ring = dispatch.ring;
    lemma_oldest_packet(ring);
    let oldest = oldest_packet(ring);
    lemma_counts(ring, item, Seq::empty());
    if oldest < ring.len() {
        let a = ring.take(oldest);
        let b = ring.skip(oldest + 1);
        assert(ring =~= a.push(ring[oldest]) + b);
        assert(ring.remove(oldest) =~= a + b);
        lemma_counts(a, ring[oldest], b);
        lemma_counts(a.push(ring[oldest]), item, b);
        lemma_counts(a + b, item, Seq::empty());
    } else {
        lemma_no_packets(ring);
    }
}

/// Whether a ring holds no more than it is meant to: `capacity` items, or nothing but markers.
pub open spec fn fits(ring: Seq<Acquired>, capacity: nat) -> bool {
    ring.len() <= capacity || packets(ring) == 0
}

/// The ring never holds more than it is meant to, whatever is put into it: so never more packets
/// than its capacity, and altogether no more than its capacity or the markers in it, whichever is
/// more.
pub proof fn the_ring_is_bounded(dispatch: DispatchView, item: Acquired)
    requires
        fits(dispatch.ring, dispatch.capacity),
    ensures
        fits(ringed(dispatch, item).ring, dispatch.capacity),
        packets(ringed(dispatch, item).ring) <= dispatch.capacity,
        ringed(dispatch, item).ring.len() <= dispatch.capacity || ringed(dispatch, item).ring.len()
            == restarts(ringed(dispatch, item).ring),
{
    let ring = dispatch.ring;
    let after = ringed(dispatch, item).ring;
    lemma_oldest_packet(ring);
    let oldest = oldest_packet(ring);
    lemma_counts(ring, item, Seq::empty());
    lemma_counts(after, item, Seq::empty());
    if oldest < ring.len() {
        let a = ring.take(oldest);
        let b = ring.skip(oldest + 1);
        assert(ring =~= a.push(ring[oldest]) + b);
        assert(ring.remove(oldest) =~= a + b);
        lemma_counts(a, ring[oldest], b);
        lemma_counts(a.push(ring[oldest]), item, b);
        lemma_counts(a + b, item, Seq::empty());
    } else {
        lemma_no_packets(ring);
    }
}

/// It stays so whatever is offered to the channel and whatever the channel answers. What is handed
/// back goes to the front of the ring only where it came from there.
pub proof fn the_ring_stays_bounded(dispatch: DispatchView, item: Acquired)
    ensures
        fits(dispatch.ring, dispatch.capacity) ==> ({
            let next = offered(dispatch);
            &&& fits(next.0.ring, dispatch.capacity)
            &&& dispatch.ring.len() > 0 ==> next.0.offering_ring && next.1 == Step::Offer(
                dispatch.ring[0],
            ) && fits(seq![dispatch.ring[0]] + next.0.ring, dispatch.capacity)
        }),
        fits(
            if dispatch.offering_ring {
                seq![item] + dispatch.ring
            } else {
                dispatch.ring
            },
            dispatch.capacity,
        ) ==> fits(answered(dispatch, Answer::Full(item)).0.ring, dispatch.capacity),
{
    if fits(dispatch.ring, dispatch.capacity) && dispatch.ring.len() > 0 {
        let front = dispatch.ring[0];
        let rest = dispatch.ring.skip(1);
        assert(dispatch.ring =~= seq![front] + rest);
        lemma_counts(seq![front], item, rest);
    }
    let back = DispatchView {
        ring: if dispatch.offering_ring {
            seq![item] + dispatch.ring
        } else {
            dispatch.ring
        },
        pending: if dispatch.offering_ring {
            None
        } else {
            dispatch.pending
        },
        ..dispatch
    };
    if fits(back.ring, back.capacity) {
        the_ring_is_bounded(back, item);
        if let Some(behind) = dispatch.pending {
            the_ring_is_bounded(back, behind);
        }
    }
}

/// Nothing newer is thrown away to make room for something older: what makes way is a packet,
/// everything ahead of it in the ring is a marker, and the rest keeps its order.
pub proof fn the_oldest_packet_makes_way(dispatch: DispatchView, item: Acquired)
    requires
        dispatch.ring.len() >= dispatch.capacity,
        packets(dispatch.ring) > 0,
    ensures
        ({
            let oldest = oldest_packet(dispatch.ring);
            &&& 0 <= oldest < dispatch.ring.len()
            &&& dispatch.ring[oldest] is Packet
            &&& forall|i: int| 0 <= i < oldest ==> (#[trigger] dispatch.ring[i]) is Restart
            &&& ringed(dispatch, item).ring == dispatch.ring.take(oldest) + dispatch.ring.skip(
                oldest + 1,
            ).push(item)
        }),
{
    let ring = dispatch.ring;
    lemma_oldest_packet(ring);
    let oldest = oldest_packet(ring);
    if oldest == ring.len() {
        lemma_no_packets(ring);
    }
    assert(ringed(dispatch, item).ring =~= ring.take(oldest) + ring.skip(oldest + 1).push(item));
}

proof fn lemma_no_packets(items: Seq<Acquired>)
    requires
        forall|i: int| 0 <= i < items.len() ==> (#[trigger] items[i]) is Restart,
    ensures
        packets(items) == 0,
    decreases items.len(),
{
    if items.len() > 0 {
        let init = items.drop_last();
        assert forall|i: int| 0 <= i < init.len() implies (#[trigger] init[i]) is Restart by {
            assert(items[i] is Restart);
        }
        lemma_no_packets(init);
        lemma_counts(init, items.last(), Seq::empty());
        assert(init.push(items.last()) =~= items);
    } else {
        reveal(Seq::filter);
    }
}

/// The items on their way, in the order they are to arrive: the one that is being offered or
/// waited with, the ring, and the one behind the ring.
pub open spec fn on_their_way(dispatch: DispatchView, step: Step) -> Seq<Acquired> {
    let first = match step {
        Step::Offer(item) => seq![item],
        Step::Wait(item) => seq![item],
        _ => Seq::empty(),
    };
    let last = match dispatch.pending {
        Some(item) => seq![item],
        None => Seq::empty(),
    };
    first + dispatch.ring + last
}

/// Order is kept: an item that is sent comes behind everything on its way, an item the channel
/// takes was the first of them, and one it hands back is still the first. Only a full ring that
/// is allowed to lose loses one.
pub proof fn order_is_kept(dispatch: DispatchView, item: Acquired, answer: Answer)
    ensures
        dispatch.pending is None ==> ({
            let sent = offered(DispatchView { pending: Some(item), ..dispatch });
            on_their_way(sent.0, sent.1) == on_their_way(dispatch, Step::Done).push(item)
        }),
        answer is Sent ==> ({
            let next = answered(dispatch, answer);
            on_their_way(next.0, next.1) == on_their_way(dispatch, Step::Done)
        }),
        answer == Answer::Full(item) && dispatch.offering_ring && dispatch.ring.len() + 1
            < dispatch.capacity && dispatch.lossy ==> ({
            let next = answered(dispatch, answer);
            on_their_way(next.0, next.1) == seq![item] + on_their_way(dispatch, Step::Done)
        }),
        answer == Answer::Full(item) && !dispatch.offering_ring && dispatch.pending is None
            && dispatch.ring.len() == 0 ==> ({
            let next = answered(dispatch, answer);
            !dispatch.lossy || dispatch.capacity > 0 ==> on_their_way(next.0, next.1) == seq![item]
        }),
{
    let sent = offered(DispatchView { pending: Some(item), ..dispatch });
    if dispatch.pending is None {
        assert(on_their_way(sent.0, sent.1) =~= on_their_way(dispatch, Step::Done).push(item));
    }
    let next = answered(dispatch, answer);
    if answer is Sent {
        assert(on_their_way(next.0, next.1) =~= on_their_way(dispatch, Step::Done));
    }
    if answer == Answer::Full(item) {
        if dispatch.offering_ring && dispatch.ring.len() + 1 < dispatch.capacity
            && dispatch.lossy {
            assert(on_their_way(next.0, next.1) =~= seq![item] + on_their_way(
                dispatch,
                Step::Done,
            ));
        }
        if !dispatch.offering_ring && dispatch.pending is None && dispatch.ring.len() == 0 {
            if !dispatch.lossy || dispatch.capacity > 0 {
                assert(on_their_way(next.0, next.1) =~= seq![item]);
            }
        }
    }
}

/// Whether a dispatcher never loses anything: it may not, and nothing is in its ring.
pub open spec fn lossless(dispatch: DispatchView) -> bool {
    !dispatch.lossy && dispatch.ring.len() == 0 && !dispatch.offering_ring
}

/// A replay drops nothing: what is sent is offered, what the channel has no room for waits for
/// it, and it stays that way whatever the channel answers.
pub proof fn a_replay_drops_nothing(dispatch: DispatchView, item: Acquired, answer: Answer)
    requires
        lossless(dispatch),
    ensures
        ({
            let sent = offered(DispatchView { pending: Some(item), ..dispatch });
            &&& sent.1 == Step::Offer(item)
            &&& lossless(sent.0)
            &&& sent.0.dropped == dispatch.dropped
        }),
        ({
            let next = answered(dispatch, answer);
            &&& lossless(next.0)
            &&& next.0.dropped == dispatch.dropped
            &&& answer == Answer::Full(item) ==> next.1 == Step::Wait(item)
        }),
{
}

} // verus!
