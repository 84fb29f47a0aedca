//! What a store promises the interface.

use vstd::prelude::*;

use crate::float::{nearest_double, nearest_double_int};
use crate::ids::ParamId;
use crate::ratio::seconds_of;
use crate::sample::SampleView;
use crate::store::{
    cleared, deepened, filed, held_places, ingested_batch, next_generation, unwatched, watching,
    Point, StoreView,
};
use crate::time::Utc;
use crate::value::ValueView;

verus! {

/// The newest points of a history: as many of its last as `count` says.
pub open spec fn last_points(points: Seq<Point>, count: int) -> Seq<Point> {
    if count <= 0 {
        Seq::empty()
    } else if points.len() <= count {
        points
    } else {
        points.skip(points.len() - count)
    }
}

/// A sample of a watched parameter makes one point: at the seconds of the packet's time, with the
/// number of its value, behind the newest `depth - 1` points there were. A value that has no number
/// makes none, and neither does a sample of a parameter that is not watched.
pub proof fn a_sample_makes_a_point(store: StoreView, sample: SampleView, time: Utc)
    requires
        store.shaped(),
        sample.parameter.number < store.latest.len(),
    ensures
        ({
            let place = sample.parameter.number as int;
            let before = store.history[place];
            let after = ingested_batch(store, seq![sample], time).history[place];
            let number = match sample.eng {
                ValueView::Unsigned(n) => Some(nearest_double(n as nat)),
                ValueView::Signed(n) => Some(nearest_double_int(n as int)),
                ValueView::Float(x) => Some(x),
                ValueView::Bool(true) => Some(nearest_double(1)),
                ValueView::Bool(false) => Some(nearest_double(0)),
                _ => None,
            };
            &&& before is None ==> after is None
            &&& before is Some && number is None ==> after == before
            &&& before is Some && number is Some && store.depth > 0 ==> after is Some
                && after->0.len() > 0 && after->0.last() == (Point {
                t: seconds_of(time.nanos()),
                v: number->0,
            }) && after->0.drop_last() == last_points(before->0, store.depth - 1)
            &&& before is Some && store.depth == 0 ==> after is Some && after->0.len() == 0
        }),
{
    let place = sample.parameter.number as int;
    assert(seq![sample].drop_last() =~= Seq::<SampleView>::empty());
    reveal_with_fuel(crate::store::filed_all, 2);
    if let Some(points) = store.history[place] {
        assert(points.len() <= store.depth);
        if let Some(after) = filed(store, sample, time).history[place] {
            if store.depth > 0 && after.len() > 0 {
                assert(after.drop_last() =~= last_points(points, store.depth - 1) || after
                    == points);
            }
        }
    }
}

/// A sample is the latest of its parameter, and counts it once more, watched or not, and whatever
/// its value is; every other parameter is as it was.
pub proof fn a_sample_is_the_latest(store: StoreView, sample: SampleView, time: Utc, place: int)
    requires
        store.shaped(),
        0 <= place < store.latest.len(),
    ensures
        ({
            let after = ingested_batch(store, seq![sample], time);
            &&& after.latest.len() == store.latest.len()
            &&& after.depth == store.depth
            &&& place == sample.parameter.number ==> after.latest[place] == Some(sample)
            &&& place == sample.parameter.number && store.updates[place] < u32::MAX
                ==> after.updates[place] == store.updates[place] + 1
            &&& place == sample.parameter.number && store.updates[place] == u32::MAX
                ==> after.updates[place] == u32::MAX
            &&& place != sample.parameter.number ==> after.latest[place] == store.latest[place]
                && after.updates[place] == store.updates[place] && after.history[place]
                == store.history[place]
            &&& store.ingested < u64::MAX ==> after.ingested == store.ingested + 1
            &&& store.ingested == u64::MAX ==> after.ingested == u64::MAX
        }),
{
    assert(seq![sample].drop_last() =~= Seq::<SampleView>::empty());
    reveal_with_fuel(crate::store::filed_all, 2);
}

/// A packet is its samples one after the other: the last one is filed on what the others made.
pub proof fn a_packet_is_its_samples(
    store: StoreView,
    samples: Seq<SampleView>,
    sample: SampleView,
    time: Utc,
)
    requires
        store.shaped(),
    ensures
        ({
            let before = ingested_batch(store, samples, time);
            let one = ingested_batch(before, seq![sample], time);
            let all = ingested_batch(store, samples.push(sample), time);
            &&& all.latest == one.latest
            &&& all.updates == one.updates
            &&& all.history == one.history
            &&& all.depth == store.depth
            &&& all.generation == before.generation
            &&& all.ingested == before.ingested
        }),
{
    assert(samples.push(sample).drop_last() =~= samples);
    assert(seq![sample].drop_last() =~= Seq::<SampleView>::empty());
    reveal_with_fuel(crate::store::filed_all, 2);
    crate::store::packets_keep_the_shape(store, samples, time);
}

/// What is listed is exactly what holds something, each once, lowest first.
pub proof fn what_is_held_is_listed<T>(slots: Seq<Option<T>>, place: int)
    requires
        0 <= place < slots.len() <= 0x1_0000_0000,
    ensures
        slots[place] is Some <==> held_places(slots).contains(ParamId { number: place as u32 }),
        forall|i: int, j: int|
            0 <= i < j < held_places(slots).len() ==> (#[trigger] held_places(slots)[i]).number < (
            #[trigger] held_places(slots)[j]).number,
        forall|i: int|
            0 <= i < held_places(slots).len() ==> (#[trigger] held_places(slots)[i]).number
                < slots.len(),
    decreases slots.len(),
{
    let rest = slots.drop_last();
    let listed = held_places(slots);
    let before = held_places(rest);
    let last = ParamId { number: (slots.len() - 1) as u32 };
    if rest.len() > 0 {
        what_is_held_is_listed(
            rest,
            if place < rest.len() {
                place
            } else {
                0
            },
        );
    }
    if slots.last() is Some {
        assert(listed == before.push(last));
        assert(listed[listed.len() - 1] == last);
        if before.contains(ParamId { number: place as u32 }) {
            let i = choose|i: int| 0 <= i < before.len() && before[i] == (ParamId {
                number: place as u32,
            });
            assert(listed[i] == before[i]);
        }
        if place < rest.len() && listed.contains(ParamId { number: place as u32 }) {
            let i = choose|i: int| 0 <= i < listed.len() && listed[i] == (ParamId {
                number: place as u32,
            });
            assert(i < before.len());
            assert(before[i] == listed[i]);
        }
        assert forall|i: int, j: int| 0 <= i < j < listed.len() implies (
        #[trigger] listed[i]).number < (#[trigger] listed[j]).number by {
            assert(listed[i] == before[i]);
            if j < before.len() {
                assert(listed[j] == before[j]);
            }
        }
    } else if place == rest.len() && before.contains(ParamId { number: place as u32 }) {
        let i = choose|i: int| 0 <= i < before.len() && before[i] == (ParamId {
            number: place as u32,
        });
        assert(before[i].number < rest.len());
    }
}

/// A parameter that is watched has a history from then on, with nothing in it; one that was watched
/// already keeps what it has; one that is no longer watched has none. No other parameter is touched,
/// and no value is lost.
pub proof fn watching_starts_a_history(store: StoreView, parameter: ParamId, other: int)
    requires
        store.shaped(),
        0 <= other < store.history.len(),
    ensures
        ({
            let on = watching(store, parameter);
            let off = unwatched(store, parameter);
            let place = parameter.number as int;
            &&& place == other && store.history[other] is None ==> on.history[other] == Some(
                Seq::<Point>::empty(),
            )
            &&& store.history[other] is Some ==> on.history[other] == store.history[other]
            &&& place == other ==> off.history[other] is None
            &&& place != other ==> on.history[other] == store.history[other] && off.history[other]
                == store.history[other]
            &&& on.latest == store.latest && off.latest == store.latest
            &&& on.updates == store.updates && off.updates == store.updates
            &&& on.depth == store.depth && off.depth == store.depth
            &&& on.generation == store.generation && off.generation == store.generation
            &&& on.ingested == store.ingested && off.ingested == store.ingested
            &&& watching(on, parameter) == on
            &&& unwatched(off, parameter) == off
        }),
{
    assert(unwatched(unwatched(store, parameter), parameter) =~= unwatched(store, parameter));
    assert(watching(watching(store, parameter), parameter) =~= watching(store, parameter));
}

/// Another depth keeps the newest points of each history, as many as it says or all there are, and
/// changes nothing else.
pub proof fn another_depth_keeps_the_newest(store: StoreView, depth: nat, place: int)
    requires
        store.shaped(),
        0 <= place < store.history.len(),
    ensures
        ({
            let after = deepened(store, depth);
            &&& after.depth == depth
            &&& after.history.len() == store.history.len()
            &&& store.history[place] is None ==> after.history[place] is None
            &&& store.history[place] matches Some(points) ==> after.history[place] == Some(
                last_points(points, depth as int),
            )
            &&& after.latest == store.latest && after.updates == store.updates
            &&& after.generation == store.generation && after.ingested == store.ingested
        }),
{
    if let Some(points) = store.history[place] {
        assert(crate::ring::newest(points, depth) =~= last_points(points, depth as int));
    }
}

/// A store that is cleared has no value, no count and no point, and still watches what it watched;
/// it still knows how many packets it has taken, and shows that it changed.
pub proof fn a_cleared_store_still_watches(store: StoreView, place: int)
    requires
        store.shaped(),
        0 <= place < store.latest.len(),
    ensures
        ({
            let after = cleared(store);
            &&& after.latest.len() == store.latest.len()
            &&& after.latest[place] is None
            &&& after.updates[place] == 0
            &&& store.history[place] is None ==> after.history[place] is None
            &&& store.history[place] is Some ==> after.history[place] == Some(Seq::<Point>::empty())
            &&& after.depth == store.depth
            &&& after.ingested == store.ingested
            &&& after.generation != store.generation
        }),
{
}

/// The generation moves on by one, around the top.
pub proof fn the_generation_moves_on(generation: u64)
    ensures
        generation < u64::MAX ==> next_generation(generation) == generation + 1,
        generation == u64::MAX ==> next_generation(generation) == 0,
{
}

} // verus!
