//! What the interface reads: the latest value of everything, and a history of what is watched.

use vstd::prelude::*;

use crate::event::{counted_up, totalled_up};
use crate::float::Float64;
use crate::ids::ParamId;
use crate::ratio::seconds_of;
use crate::ring::{newest, pushed, RingBuffer};
use crate::sample::{sample_views, Batch, Sample, SampleView};
use crate::time::Utc;
use crate::value::{number_of, Value, ValueView};

verus! {

/// One point of plottable history.
#[derive(Clone, Copy, Debug)]
pub struct Point {
    /// Seconds since the Unix epoch.
    pub t: Float64,
    /// The engineering value.
    pub v: Float64,
}

impl PartialEq for Point {
    /// Equal where the doubles are: a value that is not a number equals nothing.
    fn eq(&self, other: &Self) -> (r: bool) {
        self.t.same(other.t) && self.v.same(other.v)
    }
}

impl vstd::std_specs::cmp::PartialEqSpecImpl for Point {
    open spec fn obeys_eq_spec() -> bool {
        true
    }

    open spec fn eq_spec(&self, other: &Self) -> bool {
        self.t.equal(other.t) && self.v.equal(other.v)
    }
}

/// What a store holds.
#[verifier::ext_equal]
pub struct StoreView {
    /// The most recent sample of each parameter.
    pub latest: Seq<Option<SampleView>>,
    /// How many times each parameter has been seen.
    pub updates: Seq<u32>,
    /// The points kept of each watched parameter, oldest first.
    pub history: Seq<Option<Seq<Point>>>,
    /// How many points of history a watched parameter keeps.
    pub depth: nat,
    /// Moved by everything that arrives.
    pub generation: u64,
    /// How many batches have been filed.
    pub ingested: u64,
}

impl StoreView {
    /// One slot of each kind per parameter, and no history longer than the depth.
    pub open spec fn shaped(self) -> bool {
        &&& self.updates.len() == self.latest.len()
        &&& self.history.len() == self.latest.len()
        &&& forall|i: int|
            0 <= i < self.history.len() ==> (#[trigger] self.history[i] matches Some(points)
                ==> points.len() <= self.depth)
    }
}

/// Latest values for every parameter, and a ring of history for the watched ones.
#[derive(Debug)]
pub struct ParameterStore {
    latest: Vec<Option<Sample>>,
    updates: Vec<u32>,
    history: Vec<Option<RingBuffer<Point>>>,
    depth: usize,
    generation: u64,
    ingested: u64,
}

spec fn sample_slot(slot: Option<Sample>) -> Option<SampleView> {
    match slot {
        Some(sample) => Some(sample@),
        None => None,
    }
}

spec fn history_slot(slot: Option<RingBuffer<Point>>) -> Option<Seq<Point>> {
    match slot {
        Some(ring) => Some(ring@),
        None => None,
    }
}

impl View for ParameterStore {
    type V = StoreView;

    closed spec fn view(&self) -> StoreView {
        StoreView {
            latest: self.latest@.map_values(|slot: Option<Sample>| sample_slot(slot)),
            updates: self.updates@,
            history: self.history@.map_values(
                |slot: Option<RingBuffer<Point>>| history_slot(slot),
            ),
            depth: self.depth as nat,
            generation: self.generation,
            ingested: self.ingested,
        }
    }
}

/// One more than a generation, around the top.
pub open spec fn next_generation(generation: u64) -> u64 {
    if generation == u64::MAX {
        0
    } else {
        (generation + 1) as u64
    }
}

/// The history of a parameter after a value at an instant: one more point where it is watched
/// and the value has a number.
pub open spec fn history_after(
    kept: Option<Seq<Point>>,
    depth: nat,
    time: Utc,
    value: ValueView,
) -> Option<Seq<Point>> {
    match (kept, number_of(value)) {
        (Some(points), Some(v)) => Some(pushed(
            points,
            depth,
            Point { t: seconds_of(time.nanos()), v },
        )),
        _ => kept,
    }
}

/// A store after one sample, whose point of history is placed at `time`. A sample of a
/// parameter that the store was not built for changes nothing.
pub open spec fn filed(store: StoreView, sample: SampleView, time: Utc) -> StoreView {
    let index = sample.parameter.number as int;
    if index < store.latest.len() {
        StoreView {
            latest: store.latest.update(index, Some(sample)),
            updates: store.updates.update(index, counted_up(store.updates[index])),
            history: store.history.update(
                index,
                history_after(store.history[index], store.depth, time, sample.eng),
            ),
            ..store
        }
    } else {
        store
    }
}

/// A store after several samples, in order, all placed at `time`.
pub open spec fn filed_all(store: StoreView, samples: Seq<SampleView>, time: Utc) -> StoreView
    decreases samples.len(),
{
    if samples.len() == 0 {
        store
    } else {
        filed(filed_all(store, samples.drop_last(), time), samples.last(), time)
    }
}

/// A store after one decoded packet.
pub open spec fn ingested_batch(store: StoreView, samples: Seq<SampleView>, time: Utc) -> StoreView {
    StoreView {
        generation: next_generation(store.generation),
        ingested: totalled_up(store.ingested),
        ..filed_all(store, samples, time)
    }
}

/// A store that has started to watch a parameter.
pub open spec fn watching(store: StoreView, parameter: ParamId) -> StoreView {
    let place = parameter.number as int;
    if place < store.history.len() && store.history[place] is None {
        StoreView { history: store.history.update(place, Some(Seq::<Point>::empty())), ..store }
    } else {
        store
    }
}

/// A store that no longer watches a parameter.
pub open spec fn unwatched(store: StoreView, parameter: ParamId) -> StoreView {
    let place = parameter.number as int;
    if place < store.history.len() {
        StoreView { history: store.history.update(place, None), ..store }
    } else {
        store
    }
}

/// A store that keeps another depth of history.
pub open spec fn deepened(store: StoreView, depth: nat) -> StoreView {
    StoreView {
        depth,
        history: store.history.map_values(
            |kept: Option<Seq<Point>>|
                match kept {
                    Some(points) => Some(newest(points, depth)),
                    None => None,
                },
        ),
        ..store
    }
}

/// A store that has dropped every value and every history.
pub open spec fn cleared(store: StoreView) -> StoreView {
    StoreView {
        latest: Seq::new(store.latest.len(), |i: int| None),
        updates: Seq::new(store.latest.len(), |i: int| 0u32),
        history: store.history.map_values(
            |kept: Option<Seq<Point>>|
                match kept {
                    Some(points) => Some(Seq::<Point>::empty()),
                    None => None,
                },
        ),
        depth: store.depth,
        generation: next_generation(store.generation),
        ingested: store.ingested,
    }
}

/// The places that hold something, lowest first.
pub open spec fn held_places<T>(slots: Seq<Option<T>>) -> Seq<ParamId>
    decreases slots.len(),
{
    if slots.len() == 0 {
        Seq::empty()
    } else if slots.last() is Some {
        held_places(slots.drop_last()).push(ParamId { number: (slots.len() - 1) as u32 })
    } else {
        held_places(slots.drop_last())
    }
}

impl ParameterStore {
    /// What every store keeps: one slot of each kind per parameter, and rings of the depth it
    /// was told.
    pub closed spec fn wf(&self) -> bool {
        &&& self.updates@.len() == self.latest@.len()
        &&& self.history@.len() == self.latest@.len()
        &&& forall|i: int|
            0 <= i < self.history@.len() ==> (#[trigger] self.history@[i] matches Some(ring)
                ==> ring.wf() && ring.limit() == self.depth)
    }

    /// The parts of a store's view belong together: one slot of each kind per parameter, and no
    /// history longer than the depth.
    pub proof fn lemma_shape(&self)
        requires
            self.wf(),
        ensures
            self@.shaped(),
    {
        assert forall|i: int| 0 <= i < self@.history.len() implies (
        #[trigger] self@.history[i] matches Some(points) ==> points.len() <= self@.depth) by {
            if let Some(ring) = self.history@[i] {
                ring.lemma_bounded();
            }
        }
    }

    /// A store for a definition with `parameter_count` parameters, keeping `depth` points of
    /// history per watched parameter.
    pub fn new(parameter_count: usize, depth: usize) -> (r: Self)
        ensures
            r.wf(),
            r@ == (StoreView {
                latest: Seq::new(parameter_count as nat, |i: int| None),
                updates: Seq::new(parameter_count as nat, |i: int| 0u32),
                history: Seq::new(parameter_count as nat, |i: int| None),
                depth: depth as nat,
                generation: 0,
                ingested: 0,
            }),
    {
        let mut latest: Vec<Option<Sample>> = Vec::new();
        let mut updates: Vec<u32> = Vec::new();
        let mut history: Vec<Option<RingBuffer<Point>>> = Vec::new();
        let mut made: usize = 0;
        while made < parameter_count
            invariant
                made <= parameter_count,
                latest@ == Seq::new(made as nat, |i: int| None::<Sample>),
                updates@ == Seq::new(made as nat, |i: int| 0u32),
                history@ == Seq::new(made as nat, |i: int| None::<RingBuffer<Point>>),
            decreases parameter_count - made,
        {
            latest.push(None);
            updates.push(0);
            history.push(None);
            made = made + 1;
            assert(latest@ =~= Seq::new(made as nat, |i: int| None::<Sample>));
            assert(updates@ =~= Seq::new(made as nat, |i: int| 0u32));
            assert(history@ =~= Seq::new(made as nat, |i: int| None::<RingBuffer<Point>>));
        }
        let store = ParameterStore { latest, updates, history, depth, generation: 0, ingested: 0 };
        assert(store@.latest =~= Seq::new(parameter_count as nat, |i: int| None));
        assert(store@.history =~= Seq::new(parameter_count as nat, |i: int| None));
        store
    }

    /// How many parameters this store was built for.
    pub fn parameter_count(&self) -> (r: usize)
        ensures
            r == self@.latest.len(),
    {
        self.latest.len()
    }

    /// How many points of history a watched parameter keeps.
    pub fn depth(&self) -> (r: usize)
        ensures
            r == self@.depth,
    {
        self.depth
    }

    /// Moved by every batch and sample that arrives.
    ///
    /// The interface compares it with what it drew last, and skips the frame when nothing has
    /// changed.
    pub fn generation(&self) -> (r: u64)
        ensures
            r == self@.generation,
    {
        self.generation
    }

    /// How many batches have been ingested since the store was made.
    pub fn ingested(&self) -> (r: u64)
        ensures
            r == self@.ingested,
    {
        self.ingested
    }

    /// Starts keeping history for a parameter. Returns whether it was not already watched.
    pub fn watch(&mut self, parameter: ParamId) -> (r: bool)
        requires
            old(self).wf(),
        ensures
            final(self).wf(),
            r == (parameter.number < old(self)@.history.len()
                && old(self)@.history[parameter.number as int] is None),
            final(self)@ == watching(old(self)@, parameter),
            final(self)@ == (if r {
                StoreView {
                    history: old(self)@.history.update(
                        parameter.number as int,
                        Some(Seq::<Point>::empty()),
                    ),
                    ..old(self)@
                }
            } else {
                old(self)@
            }),
    {
        let index: usize = parameter.index();
        if index >= self.history.len() {
            return false;
        }
        if self.history[index].is_some() {
            return false;
        }
        self.history[index] = Some(RingBuffer::with_capacity(self.depth));
        assert(self@.history =~= old(self)@.history.update(
            parameter.number as int,
            Some(Seq::<Point>::empty()),
        ));
        true
    }

    /// Stops keeping history for a parameter and frees its ring.
    pub fn unwatch(&mut self, parameter: ParamId)
        requires
            old(self).wf(),
        ensures
            final(self).wf(),
            final(self)@ == unwatched(old(self)@, parameter),
            final(self)@ == (if parameter.number < old(self)@.history.len() {
                StoreView {
                    history: old(self)@.history.update(parameter.number as int, None),
                    ..old(self)@
                }
            } else {
                old(self)@
            }),
    {
        let index: usize = parameter.index();
        if index < self.history.len() {
            self.history[index] = None;
            assert(self@.history =~= old(self)@.history.update(parameter.number as int, None));
        }
    }

    /// Whether history is being kept for a parameter.
    pub fn is_watched(&self, parameter: ParamId) -> (r: bool)
        requires
            self.wf(),
        ensures
            r == (parameter.number < self@.history.len()
                && self@.history[parameter.number as int] is Some),
    {
        let index: usize = parameter.index();
        index < self.history.len() && self.history[index].is_some()
    }

    /// Every parameter currently watched.
    pub fn watched(&self) -> (r: Vec<ParamId>)
        requires
            self.wf(),
        ensures
            r@ == held_places(self@.history),
    {
        let mut all: Vec<ParamId> = Vec::new();
        let mut index: usize = 0;
        assert(self@.history.take(0) =~= Seq::empty());
        while index < self.history.len()
            invariant
                index <= self.history@.len(),
                all@ == held_places(self@.history.take(index as int)),
            decreases self.history@.len() - index,
        {
            if self.history[index].is_some() {
                all.push(ParamId::new(index as u32));
            }
            index = index + 1;
            assert(self@.history.take(index as int).drop_last() =~= self@.history.take(index - 1));
        }
        assert(self@.history.take(index as int) =~= self@.history);
        all
    }

    /// Changes how much history each watched parameter keeps, preserving the newest points.
    pub fn set_depth(&mut self, depth: usize)
        requires
            old(self).wf(),
        ensures
            final(self).wf(),
            final(self)@ == deepened(old(self)@, depth as nat),
            final(self)@ == (StoreView {
                depth: depth as nat,
                history: old(self)@.history.map_values(
                    |kept: Option<Seq<Point>>|
                        match kept {
                            Some(points) => Some(newest(points, depth as nat)),
                            None => None,
                        },
                ),
                ..old(self)@
            }),
    {
        let ghost before = self@;
        let ghost rings = self.history@;
        let ghost was: usize = self.depth;
        self.depth = depth;
        let mut index: usize = 0;
        while index < self.history.len()
            invariant
                index <= self.history@.len(),
                self.history@.len() == rings.len(),
                before.history == rings.map_values(
                    |slot: Option<RingBuffer<Point>>| history_slot(slot),
                ),
                self.updates@.len() == self.latest@.len(),
                self.history@.len() == self.latest@.len(),
                self@.latest == before.latest,
                self@.updates == before.updates,
                self@.generation == before.generation,
                self@.ingested == before.ingested,
                self.depth == depth,
                forall|i: int|
                    0 <= i < rings.len() ==> (#[trigger] rings[i] matches Some(ring) ==> ring.wf()
                        && ring.limit() == was),
                forall|i: int| index <= i < rings.len() ==> self.history@[i] == rings[i],
                forall|i: int|
                    0 <= i < index ==> (#[trigger] self.history@[i] matches Some(ring) ==> ring.wf()
                        && ring.limit() == depth),
                forall|i: int|
                    0 <= i < index ==> #[trigger] history_slot(self.history@[i]) == (
                    match history_slot(rings[i]) {
                        Some(points) => Some(newest(points, depth as nat)),
                        None => None,
                    }),
            decreases self.history@.len() - index,
        {
            assert(self.history@[index as int] == rings[index as int]);
            if let Some(ring) = &mut self.history[index] {
                ring.resize(depth);
            }
            index = index + 1;
        }
        assert(self@.history =~= before.history.map_values(
            |kept: Option<Seq<Point>>|
                match kept {
                    Some(points) => Some(newest(points, depth as nat)),
                    None => None,
                },
        ));
    }

    /// Files one sample at a place on the time axis.
    fn file(&mut self, sample: Sample, time: Utc)
        requires
            old(self).wf(),
        ensures
            final(self).wf(),
            final(self)@ == filed(old(self)@, sample@, time),
    {
        let index: usize = sample.parameter.index();
        let ghost view = sample@;
        if index < self.latest.len() {
            let number = sample.eng.as_f64();
            self.latest[index] = Some(sample);
            let count: u32 = self.updates[index];
            if count < u32::MAX {
                self.updates[index] = count + 1;
            }
            if let Some(v) = number {
                if let Some(ring) = &mut self.history[index] {
                    ring.push(Point { t: time.unix_secs_f64(), v });
                }
            }
            proof {
                let expected = filed(old(self)@, view, time);
                assert(self@.latest =~= expected.latest);
                assert(self@.updates =~= expected.updates);
                assert(self@.history =~= expected.history);
            }
        }
    }

    /// Files one decoded packet.
    ///
    /// Every sample updates the parameter's latest value; a watched parameter whose value is
    /// numeric also gets a point of history. A sample for a parameter index this store was not
    /// built for is dropped.
    pub fn ingest(&mut self, batch: &Batch)
        requires
            old(self).wf(),
        ensures
            final(self).wf(),
            final(self)@ == ingested_batch(
                old(self)@,
                sample_views(batch.samples@),
                batch.placed_at(),
            ),
    {
        let time = batch.time();
        let ghost views = sample_views(batch.samples@);
        let ghost before = self@;
        let mut index: usize = 0;
        assert(views.take(0) =~= Seq::empty());
        while index < batch.samples.len()
            invariant
                self.wf(),
                index <= batch.samples@.len(),
                views == sample_views(batch.samples@),
                self@ == filed_all(before, views.take(index as int), time),
            decreases batch.samples@.len() - index,
        {
            self.file(batch.samples[index].clone(), time);
            index = index + 1;
            assert(views.take(index as int).drop_last() =~= views.take(index - 1));
        }
        assert(views.take(index as int) =~= views);
        let ghost filled = self@;
        self.generation = self.generation.wrapping_add(1);
        if self.ingested < u64::MAX {
            self.ingested = self.ingested + 1;
        }
        proof {
            old(self).lemma_shape();
            lemma_filing_keeps(before, views, time);
            assert(self@.latest =~= filled.latest);
            assert(self@.history =~= filled.history);
        }
    }

    /// Files one sample outside a batch.
    pub fn push(&mut self, sample: Sample)
        requires
            old(self).wf(),
        ensures
            final(self).wf(),
            final(self)@ == (StoreView {
                generation: next_generation(old(self)@.generation),
                ..filed(old(self)@, sample@, sample.time)
            }),
    {
        let time = sample.time;
        self.file(sample, time);
        let ghost filled = self@;
        self.generation = self.generation.wrapping_add(1);
        assert(self@.latest =~= filled.latest);
        assert(self@.history =~= filled.history);
    }

    /// The most recent sample for a parameter, if one has ever arrived.
    pub fn latest(&self, parameter: ParamId) -> (r: Option<&Sample>)
        ensures
            r is Some <==> (parameter.number < self@.latest.len()
                && self@.latest[parameter.number as int] is Some),
            r matches Some(sample) ==> self@.latest[parameter.number as int] == Some(sample@),
    {
        let index: usize = parameter.index();
        if index < self.latest.len() {
            self.latest[index].as_ref()
        } else {
            None
        }
    }

    /// The most recent engineering value for a parameter.
    pub fn latest_value(&self, parameter: ParamId) -> (r: Option<&Value>)
        ensures
            r is Some <==> (parameter.number < self@.latest.len()
                && self@.latest[parameter.number as int] is Some),
            r matches Some(value) ==> self@.latest[parameter.number as int]->0.eng == value@,
    {
        match self.latest(parameter) {
            Some(sample) => Some(&sample.eng),
            None => None,
        }
    }

    /// When a parameter last arrived.
    pub fn latest_time(&self, parameter: ParamId) -> (r: Option<Utc>)
        ensures
            r is Some <==> (parameter.number < self@.latest.len()
                && self@.latest[parameter.number as int] is Some),
            r matches Some(time) ==> self@.latest[parameter.number as int]->0.time == time,
    {
        match self.latest(parameter) {
            Some(sample) => Some(sample.time),
            None => None,
        }
    }

    /// How many times a parameter has been seen.
    pub fn updates(&self, parameter: ParamId) -> (r: u32)
        ensures
            r == (if parameter.number < self@.updates.len() {
                self@.updates[parameter.number as int]
            } else {
                0
            }),
    {
        let index: usize = parameter.index();
        if index < self.updates.len() {
            self.updates[index]
        } else {
            0
        }
    }

    /// The history of a watched parameter.
    pub fn history(&self, parameter: ParamId) -> (r: Option<&RingBuffer<Point>>)
        requires
            self.wf(),
        ensures
            r is Some <==> (parameter.number < self@.history.len()
                && self@.history[parameter.number as int] is Some),
            r matches Some(ring) ==> {
                &&& ring.wf()
                &&& ring.limit() == self@.depth
                &&& self@.history[parameter.number as int] == Some(ring@)
            },
    {
        let index: usize = parameter.index();
        if index < self.history.len() {
            self.history[index].as_ref()
        } else {
            None
        }
    }

    /// Every parameter that has arrived since the store was made or last cleared.
    pub fn seen(&self) -> (r: Vec<ParamId>)
        ensures
            r@ == held_places(self@.latest),
    {
        let mut all: Vec<ParamId> = Vec::new();
        let mut index: usize = 0;
        assert(self@.latest.take(0) =~= Seq::empty());
        while index < self.latest.len()
            invariant
                index <= self.latest@.len(),
                all@ == held_places(self@.latest.take(index as int)),
            decreases self.latest@.len() - index,
        {
            if self.latest[index].is_some() {
                all.push(ParamId::new(index as u32));
            }
            index = index + 1;
            assert(self@.latest.take(index as int).drop_last() =~= self@.latest.take(index - 1));
        }
        assert(self@.latest.take(index as int) =~= self@.latest);
        all
    }

    /// How many distinct parameters have arrived since the store was made or last cleared.
    pub fn seen_count(&self) -> (r: usize)
        ensures
            r == held_places(self@.latest).len(),
    {
        self.seen().len()
    }

    /// Drops every value and every history, keeping what is watched and how many batches there
    /// were.
    pub fn clear(&mut self)
        requires
            old(self).wf(),
        ensures
            final(self).wf(),
            final(self)@ == cleared(old(self)@),
            final(self)@ == (StoreView {
                latest: Seq::new(old(self)@.latest.len(), |i: int| None),
                updates: Seq::new(old(self)@.latest.len(), |i: int| 0u32),
                history: old(self)@.history.map_values(
                    |kept: Option<Seq<Point>>|
                        match kept {
                            Some(points) => Some(Seq::<Point>::empty()),
                            None => None,
                        },
                ),
                depth: old(self)@.depth,
                generation: next_generation(old(self)@.generation),
                ingested: old(self)@.ingested,
            }),
    {
        let ghost before = self@;
        let ghost rings = self.history@;
        let mut index: usize = 0;
        while index < self.latest.len()
            invariant
                index <= self.latest@.len(),
                self.history@.len() == rings.len(),
                before.history == rings.map_values(
                    |slot: Option<RingBuffer<Point>>| history_slot(slot),
                ),
                before.latest.len() == self.latest@.len(),
                self.updates@.len() == self.latest@.len(),
                self.history@.len() == self.latest@.len(),
                self@.depth == before.depth,
                self@.generation == before.generation,
                self@.ingested == before.ingested,
                forall|i: int|
                    0 <= i < rings.len() ==> (#[trigger] rings[i] matches Some(ring) ==> ring.wf()
                        && ring.limit() == self.depth),
                forall|i: int| index <= i < rings.len() ==> self.history@[i] == rings[i],
                forall|i: int| 0 <= i < index ==> (#[trigger] self.latest@[i]) is None,
                forall|i: int| 0 <= i < index ==> (#[trigger] self.updates@[i]) == 0,
                forall|i: int|
                    0 <= i < index ==> (#[trigger] self.history@[i] matches Some(ring) ==> ring.wf()
                        && ring.limit() == self.depth),
                forall|i: int|
                    0 <= i < index ==> #[trigger] history_slot(self.history@[i]) == (
                    match history_slot(rings[i]) {
                        Some(points) => Some(Seq::<Point>::empty()),
                        None => None,
                    }),
            decreases self.latest@.len() - index,
        {
            assert(self.history@[index as int] == rings[index as int]);
            self.latest[index] = None;
            self.updates[index] = 0;
            if let Some(ring) = &mut self.history[index] {
                ring.clear();
            }
            index = index + 1;
        }
        self.generation = self.generation.wrapping_add(1);
        assert(self@.latest =~= Seq::new(before.latest.len(), |i: int| None));
        assert(self@.updates =~= Seq::new(before.latest.len(), |i: int| 0u32));
        assert(self@.history =~= before.history.map_values(
            |kept: Option<Seq<Point>>|
                match kept {
                    Some(points) => Some(Seq::<Point>::empty()),
                    None => None,
                },
        ));
    }
}

proof fn lemma_filing_keeps(store: StoreView, samples: Seq<SampleView>, time: Utc)
    requires
        store.shaped(),
    ensures
        filed_all(store, samples, time).shaped(),
        filed_all(store, samples, time).depth == store.depth,
        filed_all(store, samples, time).generation == store.generation,
        filed_all(store, samples, time).ingested == store.ingested,
        filed_all(store, samples, time).latest.len() == store.latest.len(),
    decreases samples.len(),
{
    if samples.len() > 0 {
        lemma_filing_keeps(store, samples.drop_last(), time);
    }
}

/// History is kept only for watched parameters: a packet starts no history and ends none.
pub proof fn packets_do_not_watch(store: StoreView, samples: Seq<SampleView>, time: Utc, place: int)
    requires
        store.shaped(),
        0 <= place < store.history.len(),
    ensures
        ingested_batch(store, samples, time).history[place] is Some <==> store.history[place] is Some,
    decreases samples.len(),
{
    if samples.len() > 0 {
        packets_do_not_watch(store, samples.drop_last(), time, place);
        lemma_filing_keeps(store, samples.drop_last(), time);
    }
}

/// A parameter that no sample of a packet names is as it was before the packet.
pub proof fn other_parameters_are_untouched(
    store: StoreView,
    samples: Seq<SampleView>,
    time: Utc,
    place: int,
)
    requires
        store.shaped(),
        0 <= place < store.latest.len(),
        forall|i: int| 0 <= i < samples.len() ==> (#[trigger] samples[i]).parameter.number != place,
    ensures
        ingested_batch(store, samples, time).latest[place] == store.latest[place],
        ingested_batch(store, samples, time).updates[place] == store.updates[place],
        ingested_batch(store, samples, time).history[place] == store.history[place],
    decreases samples.len(),
{
    if samples.len() > 0 {
        assert forall|i: int| 0 <= i < samples.drop_last().len() implies (
        #[trigger] samples.drop_last()[i]).parameter.number != place by {
            assert(samples[i].parameter.number != place);
        }
        other_parameters_are_untouched(store, samples.drop_last(), time, place);
        lemma_filing_keeps(store, samples.drop_last(), time);
        assert(samples[samples.len() - 1].parameter.number != place);
    }
}

/// The latest value of a parameter is the last sample of it, watched or not.
pub proof fn the_last_sample_is_the_latest(
    store: StoreView,
    samples: Seq<SampleView>,
    time: Utc,
    place: int,
)
    requires
        store.shaped(),
        0 <= place < samples.len(),
        samples[place].parameter.number < store.latest.len(),
        forall|j: int|
            place < j < samples.len() ==> (#[trigger] samples[j]).parameter.number
                != samples[place].parameter.number,
    ensures
        ingested_batch(store, samples, time).latest[samples[place].parameter.number as int] == Some(
            samples[place],
        ),
    decreases samples.len(),
{
    let rest = samples.drop_last();
    lemma_filing_keeps(store, rest, time);
    if place < rest.len() {
        assert forall|j: int| place < j < rest.len() implies (#[trigger] rest[j]).parameter.number
            != rest[place].parameter.number by {
            assert(samples[j].parameter.number != samples[place].parameter.number);
        }
        the_last_sample_is_the_latest(store, rest, time, place);
        assert(samples[samples.len() - 1].parameter.number != samples[place].parameter.number);
    }
}

/// A packet keeps a store's parts together: as many slots, and no history longer than the depth.
pub proof fn packets_keep_the_shape(store: StoreView, samples: Seq<SampleView>, time: Utc)
    requires
        store.shaped(),
    ensures
        ingested_batch(store, samples, time).shaped(),
        ingested_batch(store, samples, time).latest.len() == store.latest.len(),
        ingested_batch(store, samples, time).depth == store.depth,
{
    lemma_filing_keeps(store, samples, time);
}

/// The generation moves whenever a packet arrives, whatever it holds.
pub proof fn arrivals_move_the_generation(store: StoreView, samples: Seq<SampleView>, time: Utc)
    ensures
        ingested_batch(store, samples, time).generation != store.generation,
{
}

} // verus!
