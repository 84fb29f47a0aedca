//! A fixed-capacity ring that overwrites its oldest element.
//!
//! Telemetry history is unbounded and memory is not, so the history a ground station keeps is
//! a window: the last *n* points, with the oldest falling off the back. The contents can be
//! handed to a plot as two slices without a copy.

use vstd::prelude::*;

verus! {

/// A ring buffer of fixed capacity.
///
/// Pushing into a full ring overwrites the oldest element. Its view is the elements it holds,
/// oldest first.
#[derive(Clone, Debug)]
pub struct RingBuffer<T> {
    items: Vec<T>,
    head: usize,
    capacity: usize,
}

impl<T> View for RingBuffer<T> {
    type V = Seq<T>;

    closed spec fn view(&self) -> Seq<T> {
        self.items@.skip(self.head as int) + self.items@.take(self.head as int)
    }
}

/// What a ring of `capacity` holds after `item` is pushed onto `held`.
pub open spec fn pushed<T>(held: Seq<T>, capacity: nat, item: T) -> Seq<T> {
    if capacity == 0 {
        held
    } else if held.len() < capacity {
        held.push(item)
    } else {
        held.skip(1).push(item)
    }
}

/// What a ring of `capacity` holds after every one of `items` is pushed onto `held`, in order.
pub open spec fn pushed_all<T>(held: Seq<T>, capacity: nat, items: Seq<T>) -> Seq<T>
    decreases items.len(),
{
    if items.len() == 0 {
        held
    } else {
        pushed(pushed_all(held, capacity, items.drop_last()), capacity, items.last())
    }
}

/// How many of a ring's newest elements stand in front of its oldest, after one more push: a push
/// that overwrites puts one more there, until the newest is at the end again.
pub open spec fn turned(turn: nat, held: nat, capacity: nat) -> nat {
    if capacity == 0 || held < capacity {
        turn
    } else if turn + 1 == capacity {
        0
    } else {
        turn + 1
    }
}

/// How many of a ring's newest elements stand in front of its oldest, after so many pushes.
pub open spec fn turned_by(capacity: nat, pushes: nat) -> nat
    decreases pushes,
{
    if pushes == 0 {
        0
    } else {
        let before = (pushes - 1) as nat;
        let held = if before < capacity {
            before
        } else {
            capacity
        };
        turned(turned_by(capacity, before), held, capacity)
    }
}

/// The last `count` elements, or all of them where there are fewer.
pub open spec fn newest<T>(items: Seq<T>, count: nat) -> Seq<T> {
    if items.len() <= count {
        items
    } else {
        items.skip(items.len() - count)
    }
}

impl<T> RingBuffer<T> {
    /// What every ring keeps: it holds no more than its capacity, and only a full ring has
    /// wrapped.
    pub closed spec fn wf(&self) -> bool {
        &&& self.items@.len() <= self.capacity
        &&& self.head == 0 || (self.items@.len() == self.capacity && self.head < self.capacity)
    }

    /// How many of the newest elements stand in front of the oldest where they are kept: none
    /// until a push overwrites.
    pub closed spec fn turn(&self) -> nat {
        self.head as nat
    }

    /// How many elements the ring can hold.
    pub closed spec fn limit(&self) -> nat {
        self.capacity as nat
    }

    /// A ring holds no more than it can.
    pub proof fn lemma_bounded(&self)
        requires
            self.wf(),
        ensures
            self@.len() <= self.limit(),
    {
    }

    /// An empty ring holding at most `capacity` elements.
    ///
    /// A capacity of zero is allowed and makes every push a no-op.
    pub fn with_capacity(capacity: usize) -> (r: Self)
        ensures
            r.wf(),
            r.limit() == capacity,
            r.turn() == 0,
            r@ == Seq::<T>::empty(),
    {
        let reserve: usize = if capacity < 4096 {
            capacity
        } else {
            4096
        };
        RingBuffer { items: Vec::with_capacity(reserve), head: 0, capacity }
    }

    /// How many elements this ring can hold.
    pub fn capacity(&self) -> (r: usize)
        ensures
            r == self.limit(),
    {
        self.capacity
    }

    /// How many elements it holds now.
    pub fn len(&self) -> (r: usize)
        requires
            self.wf(),
        ensures
            r == self@.len(),
    {
        self.items.len()
    }

    /// Whether it holds nothing.
    pub fn is_empty(&self) -> (r: bool)
        requires
            self.wf(),
        ensures
            r == (self@.len() == 0),
    {
        self.items.len() == 0
    }

    /// Whether the next push will overwrite.
    pub fn is_full(&self) -> (r: bool)
        requires
            self.wf(),
        ensures
            r == (self.limit() > 0 && self@.len() == self.limit()),
    {
        self.capacity > 0 && self.items.len() == self.capacity
    }

    /// Appends an element, overwriting the oldest if the ring is full.
    ///
    /// Returns the element that did not stay: the one that was overwritten, or the item itself
    /// where the ring can hold nothing.
    pub fn push(&mut self, item: T) -> (r: Option<T>)
        requires
            old(self).wf(),
        ensures
            final(self).wf(),
            final(self).limit() == old(self).limit(),
            final(self)@ == pushed(old(self)@, old(self).limit(), item),
            final(self).turn() == turned(old(self).turn(), old(self)@.len(), old(self).limit()),
            r == (if old(self).limit() == 0 {
                Some(item)
            } else if old(self)@.len() < old(self).limit() {
                None
            } else {
                Some(old(self)@[0])
            }),
    {
        if self.capacity == 0 {
            return Some(item);
        }
        if self.items.len() < self.capacity {
            self.items.push(item);
            assert(self@ =~= old(self)@.push(item));
            return None;
        }
        let mut evicted: T = item;
        let head: usize = self.head;
        core::mem::swap(&mut self.items[head], &mut evicted);
        self.head = if head + 1 == self.capacity {
            0
        } else {
            head + 1
        };
        assert(self@ =~= old(self)@.skip(1).push(item));
        Some(evicted)
    }

    /// Where the element `index` places after the oldest is kept.
    fn physical(&self, index: usize) -> (r: usize)
        requires
            self.wf(),
            index < self@.len(),
        ensures
            r < self.items@.len(),
            self.items@[r as int] == self@[index as int],
            r == (if index < self.items@.len() - self.head {
                self.head + index
            } else {
                index - (self.items@.len() - self.head)
            }),
    {
        let tail: usize = self.items.len() - self.head;
        if index < tail {
            self.head + index
        } else {
            index - tail
        }
    }

    /// The element `index` places after the oldest.
    pub fn get(&self, index: usize) -> (r: Option<&T>)
        requires
            self.wf(),
        ensures
            r == (if index < self@.len() {
                Some(&self@[index as int])
            } else {
                None
            }),
    {
        if index >= self.items.len() {
            return None;
        }
        let slot: usize = self.physical(index);
        Some(&self.items[slot])
    }

    /// The element `index` places after the oldest, mutably.
    pub fn get_mut(&mut self, index: usize) -> (r: Option<&mut T>)
        requires
            old(self).wf(),
        ensures
            final(self).wf(),
            final(self).limit() == old(self).limit(),
            final(self).turn() == old(self).turn(),
            r is Some <==> index < old(self)@.len(),
            r matches Some(item) ==> *item == old(self)@[index as int],
            r matches Some(item) ==> final(self)@ == old(self)@.update(index as int, *final(item)),
            r is None ==> final(self)@ == old(self)@,
    {
        if index >= self.items.len() {
            return None;
        }
        let slot: usize = self.physical(index);
        let item = &mut self.items[slot];
        Some(item)
    }

    /// The most recently pushed element.
    pub fn last(&self) -> (r: Option<&T>)
        requires
            self.wf(),
        ensures
            r == (if self@.len() > 0 {
                Some(&self@.last())
            } else {
                None
            }),
    {
        if self.items.len() == 0 {
            None
        } else {
            self.get(self.items.len() - 1)
        }
    }

    /// The most recently pushed element, mutably.
    pub fn last_mut(&mut self) -> (r: Option<&mut T>)
        requires
            old(self).wf(),
        ensures
            final(self).wf(),
            final(self).limit() == old(self).limit(),
            final(self).turn() == old(self).turn(),
            r is Some <==> old(self)@.len() > 0,
            r matches Some(item) ==> *item == old(self)@.last(),
            r matches Some(item) ==> final(self)@ == old(self)@.update(
                old(self)@.len() - 1,
                *final(item),
            ),
            r is None ==> final(self)@ == old(self)@,
    {
        let count: usize = self.items.len();
        if count == 0 {
            None
        } else {
            self.get_mut(count - 1)
        }
    }

    /// The oldest element.
    pub fn first(&self) -> (r: Option<&T>)
        requires
            self.wf(),
        ensures
            r == (if self@.len() > 0 {
                Some(&self@[0])
            } else {
                None
            }),
    {
        self.get(0)
    }

    /// The contents as two contiguous slices, oldest first.
    ///
    /// The second is empty until the ring wraps, that is until a push overwrites.
    pub fn as_slices(&self) -> (r: (&[T], &[T]))
        requires
            self.wf(),
        ensures
            r.0@ + r.1@ == self@,
            r.1@.len() == self.turn(),
    {
        let (wrapped, oldest) = self.items.as_slice().split_at(self.head);
        (oldest, wrapped)
    }

    /// Every element, oldest first.
    pub fn iter(&self) -> (r: Vec<&T>)
        requires
            self.wf(),
        ensures
            r@.len() == self@.len(),
            forall|i: int| 0 <= i < r@.len() ==> *(#[trigger] r@[i]) == self@[i],
    {
        let mut all: Vec<&T> = Vec::with_capacity(self.items.len());
        let mut index: usize = 0;
        while index < self.items.len()
            invariant
                self.wf(),
                index <= self.items@.len(),
                all@.len() == index,
                forall|i: int| 0 <= i < index ==> *(#[trigger] all@[i]) == self@[i],
            decreases self.items@.len() - index,
        {
            let slot: usize = self.physical(index);
            all.push(&self.items[slot]);
            index = index + 1;
        }
        all
    }

    /// Drops everything, keeping the capacity.
    pub fn clear(&mut self)
        requires
            old(self).wf(),
        ensures
            final(self).wf(),
            final(self).limit() == old(self).limit(),
            final(self).turn() == 0,
            final(self)@ == Seq::<T>::empty(),
    {
        self.items.clear();
        self.head = 0;
    }

    /// Changes the capacity, keeping the newest elements that still fit.
    ///
    /// Growing keeps everything and shrinking keeps the newest.
    pub fn resize(&mut self, capacity: usize)
        requires
            old(self).wf(),
        ensures
            final(self).wf(),
            final(self).limit() == capacity,
            final(self).turn() == (if capacity == old(self).limit() {
                old(self).turn()
            } else {
                0
            }),
            final(self)@ == newest(old(self)@, capacity as nat),
    {
        if capacity == self.capacity {
            return;
        }
        let mut wrapped: Vec<T> = Vec::new();
        core::mem::swap(&mut self.items, &mut wrapped);
        let mut ordered: Vec<T> = wrapped.split_off(self.head);
        ordered.append(&mut wrapped);
        assert(ordered@ =~= old(self)@);
        if ordered.len() > capacity {
            let skip: usize = ordered.len() - capacity;
            ordered = ordered.split_off(skip);
        }
        self.items = ordered;
        self.head = 0;
        self.capacity = capacity;
        assert(self@ =~= newest(old(self)@, capacity as nat));
    }
}

/// A ring holds the newest of everything ever pushed into it, in the order it came.
pub proof fn ring_keeps_the_newest<T>(capacity: nat, items: Seq<T>)
    ensures
        pushed_all(Seq::<T>::empty(), capacity, items) == newest(items, capacity),
    decreases items.len(),
{
    if items.len() > 0 {
        ring_keeps_the_newest(capacity, items.drop_last());
        assert(pushed_all(Seq::<T>::empty(), capacity, items) =~= newest(items, capacity));
    } else {
        assert(pushed_all(Seq::<T>::empty(), capacity, items) =~= newest(items, capacity));
    }
}

/// The second slice of a ring is empty until a push overwrites: a ring that was pushed no more
/// often than it has room has nothing in it.
pub proof fn the_second_slice_waits_for_the_wrap(capacity: nat, pushes: nat)
    ensures
        pushes <= capacity ==> turned_by(capacity, pushes) == 0,
        capacity < pushes < 2 * capacity ==> turned_by(capacity, pushes) == pushes - capacity,
    decreases pushes,
{
    if pushes > 0 {
        the_second_slice_waits_for_the_wrap(capacity, (pushes - 1) as nat);
    }
}

/// Resizing a ring and filling it commute: a ring shrunk or grown after a stream holds what the
/// smaller of the two capacities would have kept.
pub proof fn resizing_keeps_the_newest<T>(capacity: nat, resized: nat, items: Seq<T>)
    ensures
        newest(pushed_all(Seq::<T>::empty(), capacity, items), resized) == newest(
            items,
            if capacity <= resized {
                capacity
            } else {
                resized
            },
        ),
{
    ring_keeps_the_newest(capacity, items);
    assert(newest(newest(items, capacity), resized) =~= newest(
        items,
        if capacity <= resized {
            capacity
        } else {
            resized
        },
    ));
}

} // verus!
