//! Fitting more points than there are pixels onto an axis.
//!
//! An operator watches telemetry for the sample that does not belong, so nothing here averages:
//! each function says which of the points to keep, by their places. The areas and distances that
//! the choice goes by are measured by the caller.
//!
//! Largest-Triangle-Three-Buckets keeps the point in each bucket that contributes most to the
//! visible shape. `MinMax` pre-selection keeps the extremes of each bucket, so that fewer points
//! have to be measured. Ramer-Douglas-Peucker keeps as many points as a tolerance asks for.

use vstd::prelude::*;

use crate::float::Float64;
use crate::ratio::{
    a_multiple_is_near_the_exact_one, multiples_come_back, multiples_grow, times_ratio,
    whole_multiple,
};

verus! {

/// The bits of the number minus one.
pub const MINUS_ONE: u64 = 0xbff0_0000_0000_0000;

/// The bits of the number zero.
pub const ZERO: u64 = 0;

/// What the value at a place is, or `floor` where there is no place.
pub open spec fn value_or(values: Seq<Float64>, place: Option<int>, floor: Float64) -> Float64 {
    match place {
        Some(index) => values[index],
        None => floor,
    }
}

/// The place of the largest of the values above `floor`: the first of those as large.
pub open spec fn first_largest(values: Seq<Float64>, floor: Float64) -> Option<int>
    decreases values.len(),
{
    if values.len() == 0 {
        None
    } else {
        let earlier = first_largest(values.drop_last(), floor);
        if value_or(values, earlier, floor).below(values.last()) {
            Some(values.len() - 1)
        } else {
            earlier
        }
    }
}

/// What is picked is above the floor, nothing is larger, and nothing as large comes before it;
/// and nothing is picked only where nothing is above the floor. A value that is no number is
/// never picked.
pub proof fn the_first_largest_is_picked(values: Seq<Float64>, floor: Float64)
    requires
        !floor.nan(),
    ensures
        match first_largest(values, floor) {
            Some(index) => {
                &&& 0 <= index < values.len()
                &&& floor.below(values[index])
                &&& forall|i: int|
                    0 <= i < values.len() ==> !values[index].below(#[trigger] values[i])
                &&& forall|i: int|
                    0 <= i < index && !values[i].nan() ==> (#[trigger] values[i]).below(
                        values[index],
                    )
            },
            None => forall|i: int| 0 <= i < values.len() ==> !floor.below(#[trigger] values[i]),
        },
    decreases values.len(),
{
    if values.len() > 0 {
        let init = values.drop_last();
        the_first_largest_is_picked(init, floor);
        assert forall|i: int| 0 <= i < init.len() implies #[trigger] values[i] == init[i] by {}
        match first_largest(init, floor) {
            Some(index) => {
                assert(values[index] == init[index]);
                assert forall|i: int|
                    0 <= i < values.len() - 1 && !values[i].nan() && values[index].below(
                        values.last(),
                    ) implies (#[trigger] values[i]).below(values.last()) by {
                    assert(!init[index].below(init[i]));
                }
                assert forall|i: int| 0 <= i < index && !values[i].nan() implies (
                #[trigger] values[i]).below(values[index]) by {
                    assert(init[i].below(init[index]));
                }
                assert forall|i: int| 0 <= i < init.len() implies !values[index].below(
                    #[trigger] values[i],
                ) by {
                    assert(!init[index].below(init[i]));
                }
                assert forall|i: int|
                    0 <= i < init.len() && values[index].below(
                        values.last(),
                    ) implies !values.last().below(#[trigger] values[i]) by {
                    assert(!init[index].below(init[i]));
                }
            },
            None => {
                assert forall|i: int| 0 <= i < init.len() implies !floor.below(
                    #[trigger] values[i],
                ) by {
                    assert(!floor.below(init[i]));
                }
            },
        }
    }
}

/// Picks the largest of the values above `floor`: the first of those as large.
pub fn pick_largest(values: &Vec<Float64>, floor: Float64) -> (r: Option<usize>)
    ensures
        match r {
            Some(index) => first_largest(values@, floor) == Some(index as int) && index
                < values@.len(),
            None => first_largest(values@, floor) is None,
        },
{
    let mut best: Option<usize> = None;
    let mut best_value: Float64 = floor;
    let mut index: usize = 0;
    assert(values@.take(0) =~= Seq::empty());
    while index < values.len()
        invariant
            index <= values@.len(),
            match best {
                Some(place) => first_largest(values@.take(index as int), floor) == Some(
                    place as int,
                ) && place < index && best_value == values@[place as int],
                None => first_largest(values@.take(index as int), floor) is None && best_value
                    == floor,
            },
        decreases values@.len() - index,
    {
        let value: Float64 = values[index];
        assert(values@.take(index + 1).drop_last() =~= values@.take(index as int));
        if best_value.lt(value) {
            best = Some(index);
            best_value = value;
        }
        index = index + 1;
    }
    assert(values@.take(index as int) =~= values@);
    best
}

/// The places from `start` up to `end`, where that is a range within `len`; none where it is
/// not.
pub open spec fn places_within(start: int, end: int, len: int) -> (int, int) {
    let bounded = if end < len {
        end
    } else {
        len
    };
    if start <= bounded {
        (start, bounded)
    } else {
        (start, start)
    }
}

/// What the points of a bucket are measured against.
#[derive(Clone, Copy, PartialEq, Eq, Debug, Structural)]
pub struct Triangles {
    /// The point already chosen, one corner of every triangle.
    pub anchor: usize,
    /// The first point of the bucket.
    pub start: usize,
    /// The one behind its last.
    pub end: usize,
    /// The first point of the bucket behind it, averaged into the third corner.
    pub next_start: usize,
    /// The one behind its last. Where that bucket is empty the final point stands in for it.
    pub next_end: usize,
}

/// So many times a share of `n` points in `d` buckets, cut off to a whole number of points.
pub open spec fn share(count: nat, n: nat, d: nat) -> int {
    let whole = whole_multiple(count, n, d);
    if whole < usize::MAX {
        whole as int
    } else {
        usize::MAX - 1
    }
}

/// Where a bucket begins: behind the first point, every bucket but the first and the last holds
/// the same share of the others.
pub open spec fn edge(len: int, threshold: int, bucket: int) -> int {
    share(bucket as nat, (len - 2) as nat, (threshold - 2) as nat) + 1
}

/// The triangles of one bucket.
pub open spec fn triangles_of(len: int, threshold: int, bucket: int, anchor: int) -> Triangles {
    let (start, end) = places_within(
        edge(len, threshold, bucket),
        edge(len, threshold, bucket + 1),
        len,
    );
    let (next_start, next_end) = places_within(
        edge(len, threshold, bucket + 1),
        edge(len, threshold, bucket + 2),
        len,
    );
    Triangles {
        anchor: anchor as usize,
        start: start as usize,
        end: end as usize,
        next_start: next_start as usize,
        next_end: next_end as usize,
    }
}

/// Whether a bucket is one of a series of `len` points.
pub open spec fn lies_within(triangles: Triangles, len: int) -> bool {
    &&& triangles.anchor < len
    &&& triangles.start <= triangles.end
    &&& triangles.start < triangles.end ==> triangles.end <= len
    &&& triangles.next_start <= triangles.next_end
    &&& triangles.next_start < triangles.next_end ==> triangles.next_end <= len
}

/// Whether areas can come of measuring a bucket of a series, however the series is held.
pub open spec fn can_measure<F: Fn(&Vec<usize>, Triangles) -> Vec<Float64>>(
    areas: F,
    series: Seq<usize>,
    triangles: Triangles,
    sizes: Seq<Float64>,
) -> bool {
    exists|places: &Vec<usize>, r: Vec<Float64>|
        places@ == series && r@ == sizes && #[trigger] areas.ensures((places, triangles), r)
}

/// Whether areas are measured: for every bucket of a series, one for each of its points, and
/// always the same.
pub open spec fn measures_areas<F: Fn(&Vec<usize>, Triangles) -> Vec<Float64>>(
    areas: F,
    series: Seq<usize>,
) -> bool {
    &&& forall|places: &Vec<usize>, triangles: Triangles|
        places@ == series && lies_within(triangles, series.len() as int)
            ==> #[trigger] areas.requires((places, triangles))
    &&& forall|triangles: Triangles, sizes: Seq<Float64>|
        lies_within(triangles, series.len() as int) && #[trigger] can_measure(
            areas,
            series,
            triangles,
            sizes,
        ) ==> sizes.len() == triangles.end - triangles.start
    &&& forall|triangles: Triangles, sizes: Seq<Float64>, others: Seq<Float64>|
        #[trigger] can_measure(areas, series, triangles, sizes) && #[trigger] can_measure(
            areas,
            series,
            triangles,
            others,
        ) ==> sizes == others
}

/// The areas of a bucket of a series.
pub open spec fn areas_of<F: Fn(&Vec<usize>, Triangles) -> Vec<Float64>>(
    areas: F,
    series: Seq<usize>,
    triangles: Triangles,
) -> Seq<Float64> {
    choose|sizes: Seq<Float64>| can_measure(areas, series, triangles, sizes)
}

/// The points kept of the first `buckets` buckets: the first of all, and of each bucket the one
/// with the largest triangle.
pub open spec fn kept_of(
    len: int,
    threshold: int,
    measured: spec_fn(Triangles) -> Seq<Float64>,
    buckets: nat,
) -> Seq<usize>
    decreases buckets,
{
    if buckets == 0 {
        seq![0usize]
    } else {
        let kept = kept_of(len, threshold, measured, (buckets - 1) as nat);
        let triangles = triangles_of(len, threshold, buckets - 1, kept.last() as int);
        let best = match first_largest(measured(triangles), Float64 { bits: MINUS_ONE }) {
            Some(offset) => triangles.start + offset,
            None => triangles.start as int,
        };
        if best < len {
            kept.push(best as usize)
        } else {
            kept
        }
    }
}

/// Which of `len` points to keep so that there are at most `threshold`.
pub open spec fn lttb_places(
    len: usize,
    threshold: usize,
    measured: spec_fn(Triangles) -> Seq<Float64>,
) -> Seq<usize> {
    if threshold >= len {
        Seq::new(len as nat, |i: int| i as usize)
    } else if threshold < 3 {
        if len == 1 {
            seq![0usize]
        } else {
            seq![0usize, (len - 1) as usize]
        }
    } else {
        kept_of(len as int, threshold as int, measured, (threshold - 2) as nat).push(
            (len - 1) as usize,
        )
    }
}

/// What a series holds at the places that were picked.
pub open spec fn at_places(series: Seq<usize>, picked: Seq<usize>) -> Seq<usize> {
    Seq::new(picked.len(), |i: int| series[picked[i] as int])
}

/// Where in a series the points stand that are kept so that there are at most `threshold`.
pub open spec fn lttb_picks<F: Fn(&Vec<usize>, Triangles) -> Vec<Float64>>(
    series: Seq<usize>,
    threshold: usize,
    areas: F,
) -> Seq<usize> {
    lttb_places(
        series.len() as usize,
        threshold,
        |triangles: Triangles| areas_of(areas, series, triangles),
    )
}

/// The points of a series that are kept so that there are at most `threshold`.
pub open spec fn lttb_kept<F: Fn(&Vec<usize>, Triangles) -> Vec<Float64>>(
    series: Seq<usize>,
    threshold: usize,
    areas: F,
) -> Seq<usize> {
    at_places(series, lttb_picks(series, threshold, areas))
}

/// Whether each place is behind the one before it.
pub open spec fn goes_up(places: Seq<usize>) -> bool {
    forall|i: int, j: int|
        0 <= i < j < places.len() ==> (#[trigger] places[i]) < (#[trigger] places[j])
}

/// Whether no place is before the one before it.
pub open spec fn never_goes_down(places: Seq<usize>) -> bool {
    forall|i: int, j: int|
        0 <= i < j < places.len() ==> (#[trigger] places[i]) <= (#[trigger] places[j])
}

fn within(start: usize, end: usize, len: usize) -> (r: (usize, usize))
    ensures
        (r.0 as int, r.1 as int) == places_within(start as int, end as int, len as int),
        r.0 <= r.1,
{
    let bounded: usize = if end < len {
        end
    } else {
        len
    };
    if start <= bounded {
        (start, bounded)
    } else {
        (start, start)
    }
}

fn find_share(count: usize, n: usize, d: usize) -> (r: usize)
    requires
        n > 0,
        d > 0,
    ensures
        r == share(count as nat, n as nat, d as nat),
        r < usize::MAX,
{
    let whole: usize = times_ratio(count, n, d);
    if whole < usize::MAX {
        whole
    } else {
        usize::MAX - 1
    }
}

/// Whether one of several areas is the one to keep: no other is larger and none before it as large.
/// An area that is not a number is larger than none; where there is no other, it is the first.
pub open spec fn is_largest(sizes: Seq<Float64>, place: int) -> bool {
    &&& 0 <= place < sizes.len()
    &&& (exists|i: int|
        0 <= i < sizes.len() && (Float64 { bits: 0xbff0_0000_0000_0000 }).below(
            #[trigger] sizes[i],
        )) ==> {
        &&& !sizes[place].nan()
        &&& forall|i: int| 0 <= i < sizes.len() ==> !sizes[place].below(#[trigger] sizes[i])
        &&& forall|i: int|
            0 <= i < place ==> (#[trigger] sizes[i]).nan() || sizes[i].below(sizes[place])
    }
    &&& !(exists|i: int|
        0 <= i < sizes.len() && (Float64 { bits: 0xbff0_0000_0000_0000 }).below(
            #[trigger] sizes[i],
        )) ==> place == 0
}

/// The triangles that the points of a bucket make with the point kept before it and the middle of
/// the bucket behind it.
pub open spec fn triangles_between(
    anchor: usize,
    start: int,
    end: int,
    next_end: int,
    len: int,
) -> Triangles {
    Triangles {
        anchor,
        start: start as usize,
        end: end as usize,
        next_start: end as usize,
        next_end: (if next_end < len {
            next_end
        } else {
            len
        }) as usize,
    }
}

/// Whether the point kept of a bucket is in it, and has the largest triangle there.
pub open spec fn keeps_the_largest(
    picks: Seq<usize>,
    len: int,
    threshold: int,
    measured: spec_fn(Triangles) -> Seq<Float64>,
    bucket: int,
) -> bool {
    let start = edge(len, threshold, bucket);
    let end = edge(len, threshold, bucket + 1);
    let triangles = triangles_between(
        picks[bucket],
        start,
        end,
        edge(len, threshold, bucket + 2),
        len,
    );
    &&& start <= picks[bucket + 1] < end
    &&& is_largest(measured(triangles), picks[bucket + 1] - start)
}

/// Whether of every bucket the point with the largest triangle is kept.
pub open spec fn keeps_every_largest(
    picks: Seq<usize>,
    len: int,
    threshold: int,
    measured: spec_fn(Triangles) -> Seq<Float64>,
) -> bool {
    forall|bucket: int|
        0 <= bucket < threshold - 2 ==> #[trigger] keeps_the_largest(
            picks,
            len,
            threshold,
            measured,
            bucket,
        )
}

/// Reduces a series to at most `threshold` points, keeping the shape of the curve.
///
/// Largest-Triangle-Three-Buckets, Steinarsson 2013. The first and last points are always kept,
/// so the ends of a plotted line never move. The series is given by the `places` of its points,
/// and so is what is kept of it; `areas` measures the triangles of a bucket of it.
///
/// A series over a budget of three or more is reduced to exactly the budget, and stays in order:
/// up to 2^52 points, beyond which a bucket's share can round to a bucket of none.
pub fn lttb<F: Fn(&Vec<usize>, Triangles) -> Vec<Float64>>(
    places: &Vec<usize>,
    threshold: usize,
    areas: F,
) -> (r: Vec<usize>)
    requires
        measures_areas(areas, places@),
    ensures
        r@ == lttb_kept(places@, threshold, areas),
        3 <= threshold < places@.len() <= 0x10_0000_0000_0000 ==> r@.len() == threshold && goes_up(
            lttb_picks(places@, threshold, areas),
        ),
        3 <= threshold < places@.len() <= 0x10_0000_0000_0000 ==> keeps_every_largest(
            lttb_picks(places@, threshold, areas),
            places@.len() as int,
            threshold as int,
            |triangles: Triangles| areas_of(areas, places@, triangles),
        ),
{
    let len: usize = places.len();
    let ghost measured = |triangles: Triangles| areas_of(areas, places@, triangles);
    let mut kept: Vec<usize> = Vec::new();
    if threshold >= len {
        let mut place: usize = 0;
        while place < len
            invariant
                place <= len,
                len == places@.len(),
                kept@ == places@.take(place as int),
            decreases len - place,
        {
            kept.push(places[place]);
            place = place + 1;
            assert(kept@ =~= places@.take(place as int));
        }
        assert(kept@ =~= at_places(places@, lttb_places(len, threshold, measured)));
        return kept;
    }
    kept.push(places[0]);
    if threshold < 3 {
        if len > 1 {
            kept.push(places[len - 1]);
        }
        assert(kept@ =~= at_places(places@, lttb_places(len, threshold, measured)));
        return kept;
    }
    let floor = Float64::from_bits(MINUS_ONE);
    let mut anchor: usize = 0;
    let mut bucket: usize = 0;
    let ghost mut picked = kept_of(len as int, threshold as int, measured, 0);
    assert(kept@ =~= at_places(places@, picked));
    assert(stands_in_buckets(len as int, threshold as int, measured, picked, 0));
    while bucket < threshold - 2
        invariant
            3 <= threshold < len,
            len == places@.len(),
            bucket <= threshold - 2,
            measures_areas(areas, places@),
            measured == |triangles: Triangles| areas_of(areas, places@, triangles),
            floor == (Float64 { bits: MINUS_ONE }),
            picked == kept_of(len as int, threshold as int, measured, bucket as nat),
            picked.len() > 0,
            picked.last() == anchor,
            anchor < len,
            kept@ == at_places(places@, picked),
            len <= 0x10_0000_0000_0000 ==> stands_in_buckets(
                len as int,
                threshold as int,
                measured,
                picked,
                bucket as nat,
            ),
        decreases threshold - 2 - bucket,
    {
        let first: usize = find_share(bucket, len - 2, threshold - 2) + 1;
        let second: usize = find_share(bucket + 1, len - 2, threshold - 2) + 1;
        let third: usize = find_share(bucket + 2, len - 2, threshold - 2) + 1;
        let (start, end) = within(first, second, len);
        let (next_start, next_end) = within(second, third, len);
        let triangles = Triangles { anchor, start, end, next_start, next_end };
        let sizes = areas(places, triangles);
        assert(areas.ensures((places, triangles), sizes));
        assert(can_measure(areas, places@, triangles, sizes@));
        assert(sizes@ == measured(triangles));
        let best: usize = match pick_largest(&sizes, floor) {
            Some(offset) => start + offset,
            None => start,
        };
        proof {
            if len <= 0x10_0000_0000_0000 {
                lemma_kept_step(len, threshold, measured, bucket as nat);
            }
            picked = kept_of(len as int, threshold as int, measured, (bucket + 1) as nat);
        }
        if best < len {
            kept.push(places[best]);
            anchor = best;
        }
        assert(kept@ =~= at_places(places@, picked));
        bucket = bucket + 1;
    }
    kept.push(places[len - 1]);
    assert(kept@ =~= at_places(places@, lttb_places(len, threshold, measured)));
    proof {
        if len <= 0x10_0000_0000_0000 {
            lemma_picks_go_up(len, threshold, measured, picked);
        }
    }
    kept
}

proof fn lemma_kept(
    len: int,
    threshold: int,
    measured: spec_fn(Triangles) -> Seq<Float64>,
    buckets: nat,
)
    ensures
        1 <= kept_of(len, threshold, measured, buckets).len() <= buckets + 1,
        kept_of(len, threshold, measured, buckets)[0] == 0,
    decreases buckets,
{
    if buckets > 0 {
        lemma_kept(len, threshold, measured, (buckets - 1) as nat);
    }
}

/// The ends of a series are always kept, and of a series over the budget no more points than
/// the budget; of one within it, every point.
pub proof fn the_ends_are_kept(
    len: usize,
    threshold: usize,
    measured: spec_fn(Triangles) -> Seq<Float64>,
)
    ensures
        len > 0 ==> lttb_places(len, threshold, measured).len() > 0 && lttb_places(
            len,
            threshold,
            measured,
        )[0] == 0 && lttb_places(len, threshold, measured).last() == len - 1,
        threshold >= 2 ==> lttb_places(len, threshold, measured).len() <= threshold,
        threshold >= len ==> lttb_places(len, threshold, measured).len() == len,
{
    if 3 <= threshold < len {
        lemma_kept(len as int, threshold as int, measured, (threshold - 2) as nat);
    }
}

proof fn lemma_kept_lie_among(
    len: int,
    threshold: int,
    measured: spec_fn(Triangles) -> Seq<Float64>,
    buckets: nat,
)
    requires
        0 < len <= usize::MAX,
        3 <= threshold <= usize::MAX,
    ensures
        forall|i: int|
            0 <= i < kept_of(len, threshold, measured, buckets).len() ==> (#[trigger] kept_of(
                len,
                threshold,
                measured,
                buckets,
            )[i]) < len,
    decreases buckets,
{
    if buckets > 0 {
        lemma_kept_lie_among(len, threshold, measured, (buckets - 1) as nat);
        let kept = kept_of(len, threshold, measured, (buckets - 1) as nat);
        let triangles = triangles_of(len, threshold, buckets - 1, kept.last() as int);
        lemma_offset(measured(triangles), Float64 { bits: MINUS_ONE });
    }
}

proof fn lemma_offset(values: Seq<Float64>, floor: Float64)
    ensures
        first_largest(values, floor) matches Some(offset) ==> 0 <= offset < values.len(),
    decreases values.len(),
{
    if values.len() > 0 {
        lemma_offset(values.drop_last(), floor);
    }
}

proof fn lemma_picks_lie_among(
    len: usize,
    threshold: usize,
    measured: spec_fn(Triangles) -> Seq<Float64>,
)
    ensures
        forall|i: int|
            0 <= i < lttb_places(len, threshold, measured).len() ==> (#[trigger] lttb_places(
                len,
                threshold,
                measured,
            )[i]) < len || len == 0,
{
    if 3 <= threshold < len {
        lemma_kept_lie_among(len as int, threshold as int, measured, (threshold - 2) as nat);
    }
}

/// Whether there is an area for each point of every bucket of a series of `len` points.
pub open spec fn measures_every_point(
    measured: spec_fn(Triangles) -> Seq<Float64>,
    len: int,
) -> bool {
    forall|triangles: Triangles|
        lies_within(triangles, len) ==> (#[trigger] measured(triangles)).len() == triangles.end
            - triangles.start
}

/// Whether what is kept of the first `buckets` buckets is the first point of all and one point of
/// each of them.
spec fn stands_in_buckets(
    len: int,
    threshold: int,
    measured: spec_fn(Triangles) -> Seq<Float64>,
    kept: Seq<usize>,
    buckets: nat,
) -> bool {
    &&& forall|bucket: int|
        0 <= bucket < buckets ==> #[trigger] keeps_the_largest(
            kept,
            len,
            threshold,
            measured,
            bucket,
        )
    &&& kept.len() == buckets + 1
    &&& kept[0] == 0
    &&& forall|i: int|
        1 <= i <= buckets ==> edge(len, threshold, i - 1) <= #[trigger] kept[i] < edge(
            len,
            threshold,
            i,
        )
}

/// A share of fewer than 2^52 points is never more than there are.
proof fn lemma_shares_grow(n: nat, d: nat, a: nat, b: nat)
    requires
        0 < d < n < 0x10_0000_0000_0000,
        n < usize::MAX,
        a <= b <= d,
    ensures
        share(a, n, d) == whole_multiple(a, n, d),
        share(a, n, d) <= n,
        a < b ==> share(a, n, d) < share(b, n, d),
    decreases d - a,
{
    multiples_come_back(n, d);
    if a < d {
        multiples_grow(a, n, d);
        lemma_shares_grow(n, d, a + 1, if a < b {
            b
        } else {
            a + 1
        });
        if a + 1 == b {
            lemma_shares_grow(n, d, b, b);
        }
    }
}

/// Where the edges of the buckets are: behind the first point, each behind the one before it,
/// and none behind the last point.
proof fn lemma_edges(len: usize, threshold: usize, i: int, j: int)
    requires
        3 <= threshold < len <= 0x10_0000_0000_0000,
        0 <= i <= j <= threshold - 2,
    ensures
        edge(len as int, threshold as int, i) >= 1,
        edge(len as int, threshold as int, j) <= len - 1,
        i < j ==> edge(len as int, threshold as int, i) < edge(len as int, threshold as int, j),
{
    let (n, d) = ((len - 2) as nat, (threshold - 2) as nat);
    lemma_shares_grow(n, d, i as nat, j as nat);
    lemma_shares_grow(n, d, j as nat, j as nat);
}

proof fn lemma_kept_step(
    len: usize,
    threshold: usize,
    measured: spec_fn(Triangles) -> Seq<Float64>,
    buckets: nat,
)
    requires
        3 <= threshold < len <= 0x10_0000_0000_0000,
        buckets < threshold - 2,
        stands_in_buckets(
            len as int,
            threshold as int,
            measured,
            kept_of(len as int, threshold as int, measured, buckets),
            buckets,
        ),
        ({
            let anchor = kept_of(len as int, threshold as int, measured, buckets).last() as int;
            let triangles = triangles_of(len as int, threshold as int, buckets as int, anchor);
            measured(triangles).len() == triangles.end - triangles.start
        }),
    ensures
        stands_in_buckets(
            len as int,
            threshold as int,
            measured,
            kept_of(len as int, threshold as int, measured, buckets + 1),
            buckets + 1,
        ),
{
    let kept = kept_of(len as int, threshold as int, measured, buckets);
    let more = kept_of(len as int, threshold as int, measured, buckets + 1);
    let triangles = triangles_of(
        len as int,
        threshold as int,
        buckets as int,
        kept.last() as int,
    );
    lemma_edges(len, threshold, buckets as int, (buckets + 1) as int);
    let floor = Float64 { bits: MINUS_ONE };
    assert(!floor.nan()) by {
        assert(0xbff0_0000_0000_0000u64 % 0x8000_0000_0000_0000u64 == 0x3ff0_0000_0000_0000u64);
    }
    the_first_largest_is_picked(measured(triangles), floor);
    assert(triangles == triangles_between(
        kept.last(),
        edge(len as int, threshold as int, buckets as int),
        edge(len as int, threshold as int, (buckets + 1) as int),
        edge(len as int, threshold as int, (buckets + 2) as int),
        len as int,
    )) by {
        lemma_edge_behind(len, threshold, (buckets + 1) as int);
    }
    assert forall|bucket: int| 0 <= bucket < buckets + 1 implies #[trigger] keeps_the_largest(
        more,
        len as int,
        threshold as int,
        measured,
        bucket,
    ) by {
        if bucket < buckets {
            assert(keeps_the_largest(kept, len as int, threshold as int, measured, bucket));
            assert(more[bucket] == kept[bucket]);
            assert(more[bucket + 1] == kept[bucket + 1]);
        } else {
            assert(more[bucket] == kept.last());
            let sizes = measured(triangles);
            match first_largest(sizes, floor) {
                Some(offset) => {
                    assert(floor.below(sizes[offset]));
                },
                None => {},
            }
        }
    }
    assert forall|i: int| 1 <= i <= buckets + 1 implies edge(len as int, threshold as int, i - 1)
        <= #[trigger] more[i] < edge(len as int, threshold as int, i) by {
        if i <= buckets {
            assert(more[i] == kept[i]);
        }
    }
}

proof fn lemma_kept_in_order(
    len: usize,
    threshold: usize,
    measured: spec_fn(Triangles) -> Seq<Float64>,
    buckets: nat,
)
    requires
        3 <= threshold < len <= 0x10_0000_0000_0000,
        measures_every_point(measured, len as int),
        buckets <= threshold - 2,
    ensures
        stands_in_buckets(
            len as int,
            threshold as int,
            measured,
            kept_of(len as int, threshold as int, measured, buckets),
            buckets,
        ),
    decreases buckets,
{
    if buckets > 0 {
        let before = (buckets - 1) as nat;
        lemma_kept_in_order(len, threshold, measured, before);
        let kept = kept_of(len as int, threshold as int, measured, before);
        let triangles = triangles_of(
            len as int,
            threshold as int,
            before as int,
            kept.last() as int,
        );
        lemma_edges(len, threshold, before as int, buckets as int);
        if before > 0 {
            lemma_edges(len, threshold, before as int, before as int);
            assert(kept[before as int] < edge(len as int, threshold as int, before as int));
        }
        assert(lies_within(triangles, len as int));
        lemma_kept_step(len, threshold, measured, before);
    }
}

/// The edge behind a bucket is not before the bucket's own.
proof fn lemma_edge_behind(len: usize, threshold: usize, bucket: int)
    requires
        3 <= threshold < len <= 0x10_0000_0000_0000,
        0 <= bucket <= threshold - 2,
    ensures
        edge(len as int, threshold as int, bucket) <= edge(len as int, threshold as int, bucket + 1),
        edge(len as int, threshold as int, bucket + 1) <= usize::MAX,
{
    let (n, d) = ((len - 2) as nat, (threshold - 2) as nat);
    lemma_shares_grow(n, d, bucket as nat, bucket as nat);
    if bucket < d {
        lemma_shares_grow(n, d, bucket as nat, (bucket + 1) as nat);
    } else {
        multiples_grow(d, n, d);
    }
}

proof fn lemma_picks_go_up(
    len: usize,
    threshold: usize,
    measured: spec_fn(Triangles) -> Seq<Float64>,
    kept: Seq<usize>,
)
    requires
        3 <= threshold < len <= 0x10_0000_0000_0000,
        stands_in_buckets(len as int, threshold as int, measured, kept, (threshold - 2) as nat),
    ensures
        forall|bucket: int|
            0 <= bucket < threshold - 2 ==> #[trigger] keeps_the_largest(
                kept.push((len - 1) as usize),
                len as int,
                threshold as int,
                measured,
                bucket,
            ),
        kept.push((len - 1) as usize).len() == threshold,
        goes_up(kept.push((len - 1) as usize)),
{
    let places = kept.push((len - 1) as usize);
    assert forall|bucket: int| 0 <= bucket < threshold - 2 implies #[trigger] keeps_the_largest(
        places,
        len as int,
        threshold as int,
        measured,
        bucket,
    ) by {
        assert(keeps_the_largest(kept, len as int, threshold as int, measured, bucket));
        assert(places[bucket] == kept[bucket]);
        assert(places[bucket + 1] == kept[bucket + 1]);
    }
    assert forall|i: int, j: int| 0 <= i < j < threshold implies (#[trigger] places[i]) < (
    #[trigger] places[j]) by {
        assert(places[i] == kept[i]);
        if j < threshold - 1 {
            assert(places[j] == kept[j]);
            lemma_edges(len, threshold, i, j - 1);
        } else {
            lemma_edges(len, threshold, i, threshold - 2);
        }
    }
}

/// A series that is over the budget is reduced to exactly the budget, and stays in order.
///
/// Up to 2^52 points: beyond that a bucket's share can round to a bucket of none.
pub proof fn the_output_stays_in_order(
    len: usize,
    threshold: usize,
    measured: spec_fn(Triangles) -> Seq<Float64>,
)
    requires
        3 <= threshold < len <= 0x10_0000_0000_0000,
        measures_every_point(measured, len as int),
    ensures
        lttb_places(len, threshold, measured).len() == threshold,
        goes_up(lttb_places(len, threshold, measured)),
{
    let buckets = (threshold - 2) as nat;
    lemma_kept_in_order(len, threshold, measured, buckets);
    lemma_picks_go_up(
        len,
        threshold,
        measured,
        kept_of(len as int, threshold as int, measured, buckets),
    );
}

/// Of every bucket the point with the largest triangle is kept, and no spike is lost to another
/// point of its bucket: the first point kept is the first of all, the next one in the first bucket,
/// and so on, each measured with the one kept before it.
pub proof fn the_largest_triangle_of_each_bucket_is_kept(
    len: usize,
    threshold: usize,
    measured: spec_fn(Triangles) -> Seq<Float64>,
    bucket: int,
)
    requires
        3 <= threshold < len <= 0x10_0000_0000_0000,
        measures_every_point(measured, len as int),
        0 <= bucket < threshold - 2,
    ensures
        keeps_the_largest(
            lttb_places(len, threshold, measured),
            len as int,
            threshold as int,
            measured,
            bucket,
        ),
        lttb_places(len, threshold, measured)[0] == 0,
        lttb_places(len, threshold, measured)[threshold - 1] == len - 1,
{
    let buckets = (threshold - 2) as nat;
    lemma_kept_in_order(len, threshold, measured, buckets);
    let kept = kept_of(len as int, threshold as int, measured, buckets);
    lemma_picks_go_up(len, threshold, measured, kept);
}

/// The buckets take up everything between the two ends, one behind the other, and share it evenly:
/// each begins within two points of its exact share.
pub proof fn the_buckets_share_everything(len: usize, threshold: usize, bucket: int)
    requires
        3 <= threshold < len < 0x10_0000_0000_0000,
        0 <= bucket < threshold - 2,
    ensures
        edge(len as int, threshold as int, 0) == 1,
        len - 2 <= edge(len as int, threshold as int, threshold - 2) <= len - 1,
        edge(len as int, threshold as int, bucket) < edge(len as int, threshold as int, bucket + 1),
        (edge(len as int, threshold as int, bucket) - 1) * (threshold - 2) <= bucket * (len - 2) + (
        threshold - 2),
        (edge(len as int, threshold as int, bucket) - 1) * (threshold - 2) >= bucket * (len - 2) - 2
            * (threshold - 2),
{
    let (n, d) = ((len - 2) as nat, (threshold - 2) as nat);
    lemma_edges(len, threshold, bucket, bucket + 1);
    multiples_come_back(n, d);
    lemma_shares_grow(n, d, 0, d);
    lemma_shares_grow(n, d, d, d);
    lemma_shares_grow(n, d, bucket as nat, bucket as nat);
    a_multiple_is_near_the_exact_one(bucket as nat, n, d);
}

/// The place of the lowest of the values from `start` up to `end`: the first of those as low.
/// A value that is no number is lower than nothing, and nothing is lower than it.
pub open spec fn lowest(values: Seq<Float64>, start: int, end: int) -> Option<int>
    decreases end - start,
{
    if end <= start {
        None
    } else {
        match lowest(values, start, end - 1) {
            None => Some(end - 1),
            Some(place) => if values[end - 1].below(values[place]) {
                Some(end - 1)
            } else {
                Some(place)
            },
        }
    }
}

/// The place of the highest of the values from `start` up to `end`: the first of those as high.
pub open spec fn highest(values: Seq<Float64>, start: int, end: int) -> Option<int>
    decreases end - start,
{
    if end <= start {
        None
    } else {
        match highest(values, start, end - 1) {
            None => Some(end - 1),
            Some(place) => if values[place].below(values[end - 1]) {
                Some(end - 1)
            } else {
                Some(place)
            },
        }
    }
}

/// The extremes of the values from `start` up to `end`, in order, and once where they are one.
pub open spec fn extremes(values: Seq<Float64>, start: int, end: int) -> Seq<usize> {
    match (lowest(values, start, end), highest(values, start, end)) {
        (Some(low), Some(high)) => if low == high {
            seq![low as usize]
        } else if low < high {
            seq![low as usize, high as usize]
        } else {
            seq![high as usize, low as usize]
        },
        _ => Seq::empty(),
    }
}

/// The places of one of `all` buckets.
pub open spec fn bucket_places(len: nat, all: nat, bucket: int) -> (int, int) {
    places_within(
        share(bucket as nat, len, all),
        share((bucket + 1) as nat, len, all),
        len as int,
    )
}

/// The extremes of the first `buckets` of `all` buckets.
pub open spec fn bucket_extremes(values: Seq<Float64>, all: nat, buckets: nat) -> Seq<usize>
    decreases buckets,
{
    if buckets == 0 {
        Seq::empty()
    } else {
        let (start, end) = bucket_places(values.len(), all, buckets - 1);
        bucket_extremes(values, all, (buckets - 1) as nat) + extremes(values, start, end)
    }
}

/// In how many buckets to look for extremes before a series is reduced, where that is worth it.
pub open spec fn preselection(len: usize, threshold: usize, ratio: usize) -> Option<int> {
    let ratio = if ratio < 1 {
        1int
    } else {
        ratio as int
    };
    if threshold >= len || threshold * ratio >= len || threshold < 3 {
        None
    } else {
        Some((threshold - 2) * ratio)
    }
}

/// In how many buckets to look for extremes before a series is reduced, where that is worth it.
///
/// `MinMaxLTTB`, Van Der Donckt 2023: `ratio` times as many buckets as the final budget.
pub fn preselect_buckets(len: usize, threshold: usize, ratio: usize) -> (r: Option<usize>)
    ensures
        match r {
            Some(buckets) => preselection(len, threshold, ratio) == Some(buckets as int),
            None => preselection(len, threshold, ratio) is None,
        },
        r matches Some(buckets) ==> 0 < buckets < len,
{
    let ratio: usize = if ratio < 1 {
        1
    } else {
        ratio
    };
    if threshold >= len || threshold < 3 {
        return None;
    }
    match threshold.checked_mul(ratio) {
        Some(preselect) => if preselect >= len {
            None
        } else {
            assert((threshold - 2) * ratio == threshold * ratio - 2 * ratio) by (nonlinear_arith);
            assert((threshold - 2) * ratio >= 1) by (nonlinear_arith)
                requires
                    threshold >= 3,
                    ratio >= 1,
            ;
            Some((threshold - 2) * ratio)
        },
        None => None,
    }
}

fn find_extremes(values: &Vec<Float64>, start: usize, end: usize) -> (r: (
    Option<usize>,
    Option<usize>,
))
    requires
        start <= end,
        end <= values@.len() || start == end,
    ensures
        match r.0 {
            Some(low) => lowest(values@, start as int, end as int) == Some(low as int),
            None => lowest(values@, start as int, end as int) is None,
        },
        match r.1 {
            Some(high) => highest(values@, start as int, end as int) == Some(high as int),
            None => highest(values@, start as int, end as int) is None,
        },
        r.0 is Some <==> start < end,
        r.1 is Some <==> start < end,
{
    if start >= end {
        return (None, None);
    }
    let mut low: usize = start;
    let mut high: usize = start;
    let mut place: usize = start + 1;
    proof {
        assert(lowest(values@, start as int, start as int) is None);
        assert(highest(values@, start as int, start as int) is None);
    }
    while place < end
        invariant
            start < place <= end <= values@.len(),
            start <= low < place,
            start <= high < place,
            lowest(values@, start as int, place as int) == Some(low as int),
            highest(values@, start as int, place as int) == Some(high as int),
        decreases end - place,
    {
        if values[place].lt(values[low]) {
            low = place;
        }
        if values[high].lt(values[place]) {
            high = place;
        }
        place = place + 1;
    }
    (Some(low), Some(high))
}

/// The places of all of `count` points.
pub open spec fn every_place(count: nat) -> Seq<usize> {
    Seq::new(count, |i: int| i as usize)
}

/// The points of a series that are worth measuring: the ends and the extremes of each bucket, or
/// all of them where there are not enough to choose from.
pub open spec fn reduced_places(values: Seq<Float64>, threshold: usize, ratio: usize) -> Seq<usize> {
    match preselection(values.len() as usize, threshold, ratio) {
        Some(buckets) => seq![0usize] + bucket_extremes(
            values,
            buckets as nat,
            buckets as nat,
        ) + seq![(values.len() - 1) as usize],
        None => every_place(values.len()),
    }
}

/// Keeps the points of a series that are worth measuring: a cheap pass that cannot lose a spike,
/// since a spike is an extreme.
pub fn reduce(values: &Vec<Float64>, threshold: usize, ratio: usize) -> (r: Vec<usize>)
    ensures
        r@ == reduced_places(values@, threshold, ratio),
{
    let mut kept: Vec<usize> = Vec::new();
    let buckets: usize = match preselect_buckets(values.len(), threshold, ratio) {
        Some(buckets) => buckets,
        None => {
            let mut place: usize = 0;
            while place < values.len()
                invariant
                    place <= values@.len(),
                    kept@ == Seq::new(place as nat, |i: int| i as usize),
                decreases values@.len() - place,
            {
                kept.push(place);
                place = place + 1;
                assert(kept@ =~= Seq::new(place as nat, |i: int| i as usize));
            }
            return kept;
        },
    };
    kept.push(0);
    let mut bucket: usize = 0;
    assert(kept@ =~= seq![0usize] + bucket_extremes(values@, buckets as nat, 0));
    while bucket < buckets
        invariant
            bucket <= buckets,
            0 < buckets < values@.len(),
            kept@ == seq![0usize] + bucket_extremes(values@, buckets as nat, bucket as nat),
        decreases buckets - bucket,
    {
        let first: usize = find_share(bucket, values.len(), buckets);
        let second: usize = find_share(bucket + 1, values.len(), buckets);
        let (start, end) = within(first, second, values.len());
        let ghost earlier = kept@;
        let (low, high) = find_extremes(values, start, end);
        match (low, high) {
            (Some(low), Some(high)) => {
                if low == high {
                    kept.push(low);
                } else if low < high {
                    kept.push(low);
                    kept.push(high);
                } else {
                    kept.push(high);
                    kept.push(low);
                }
            },
            _ => {},
        }
        proof {
            let added = extremes(values@, start as int, end as int);
            assert(kept@ =~= earlier + added);
            assert(kept@ =~= seq![0usize] + (bucket_extremes(
                values@,
                buckets as nat,
                bucket as nat,
            ) + added));
        }
        bucket = bucket + 1;
    }
    kept.push(values.len() - 1);
    assert(kept@ =~= reduced_places(values@, threshold, ratio));
    kept
}

proof fn lemma_extreme_bounds(values: Seq<Float64>, start: int, end: int)
    requires
        0 <= start < end <= values.len(),
        forall|i: int| start <= i < end ==> !(#[trigger] values[i]).nan(),
    ensures
        lowest(values, start, end) matches Some(low) && start <= low < end && (forall|i: int|
            start <= i < end ==> !(#[trigger] values[i]).below(values[low])),
        highest(values, start, end) matches Some(high) && start <= high < end && (forall|i: int|
            start <= i < end ==> !values[high].below(#[trigger] values[i])),
        forall|i: int|
            start <= i < lowest(values, start, end)->0 ==> values[lowest(
                values,
                start,
                end,
            )->0].below(#[trigger] values[i]),
        forall|i: int|
            start <= i < highest(values, start, end)->0 ==> (#[trigger] values[i]).below(
                values[highest(values, start, end)->0],
            ),
    decreases end - start,
{
    if end - start > 1 {
        lemma_extreme_bounds(values, start, end - 1);
    } else {
        assert(lowest(values, start, start) is None);
        assert(highest(values, start, start) is None);
    }
}

/// Where the values of a bucket are numbers, one that is above all the others of its bucket, or
/// below them all, is one of its extremes.
proof fn lemma_spike_is_extreme(values: Seq<Float64>, start: int, end: int, spike: int)
    requires
        0 <= start <= spike < end <= values.len(),
        values.len() <= usize::MAX,
        forall|i: int| start <= i < end ==> !(#[trigger] values[i]).nan(),
        (forall|i: int|
            start <= i < end && i != spike ==> (#[trigger] values[i]).below(values[spike])) || (
        forall|i: int| start <= i < end && i != spike ==> values[spike].below(#[trigger] values[i])),
    ensures
        extremes(values, start, end).contains(spike as usize),
{
    lemma_extreme_bounds(values, start, end);
    let low = lowest(values, start, end)->0;
    let high = highest(values, start, end)->0;
    let kept = extremes(values, start, end);
    if forall|i: int| start <= i < end && i != spike ==> (#[trigger] values[i]).below(values[spike]) {
        assert(!values[high].below(values[spike]));
        assert(high == spike);
    } else {
        assert(!values[spike].below(values[low]));
        assert(low == spike);
    }
    if low == high {
        assert(kept[0] == spike);
    } else if low < high {
        assert(kept[0] == low && kept[1] == high);
    } else {
        assert(kept[0] == high && kept[1] == low);
    }
}

proof fn lemma_extremes_kept(values: Seq<Float64>, all: nat, buckets: nat, bucket: int, place: usize)
    requires
        0 <= bucket < buckets <= all,
        extremes(
            values,
            bucket_places(values.len(), all, bucket).0,
            bucket_places(values.len(), all, bucket).1,
        ).contains(place),
    ensures
        bucket_extremes(values, all, buckets).contains(place),
    decreases buckets,
{
    let (start, end) = bucket_places(values.len(), all, buckets - 1);
    let earlier = bucket_extremes(values, all, (buckets - 1) as nat);
    let added = extremes(values, start, end);
    if bucket == buckets - 1 {
        let i = choose|i: int| 0 <= i < added.len() && added[i] == place;
        assert((earlier + added)[earlier.len() + i] == place);
    } else {
        lemma_extremes_kept(values, all, (buckets - 1) as nat, bucket, place);
        let i = choose|i: int| 0 <= i < earlier.len() && earlier[i] == place;
        assert((earlier + added)[i] == place);
    }
}

/// Every point is in a bucket, but that the last point may be in none.
proof fn lemma_bucket_of(len: nat, all: nat, buckets: nat, place: int) -> (bucket: int)
    requires
        0 < all < len < 0x10_0000_0000_0000,
        len < usize::MAX,
        0 < buckets <= all,
        0 <= place < share(buckets, len, all),
    ensures
        0 <= bucket < buckets,
        bucket_places(len, all, bucket).0 <= place < bucket_places(len, all, bucket).1 <= len,
        bucket_places(len, all, bucket).0 >= 0,
    decreases buckets,
{
    let before = (buckets - 1) as nat;
    multiples_come_back(len, all);
    lemma_shares_grow(len, all, before, buckets);
    lemma_shares_grow(len, all, buckets, buckets);
    if place < share(before, len, all) {
        if before == 0 {
            assert(false);
        }
        lemma_bucket_of(len, all, before, place)
    } else {
        before as int
    }
}

/// No spike is lost: where the values of a series are numbers, the one that is above all the
/// others, or below them all, is among the points that are worth measuring. Up to 2^52 points.
pub proof fn no_spike_is_lost(values: Seq<Float64>, threshold: usize, ratio: usize, spike: int)
    requires
        0 <= spike < values.len(),
        values.len() < 0x10_0000_0000_0000,
        values.len() < usize::MAX,
        forall|i: int| 0 <= i < values.len() ==> !(#[trigger] values[i]).nan(),
        (forall|i: int|
            0 <= i < values.len() && i != spike ==> (#[trigger] values[i]).below(values[spike])) || (
        forall|i: int|
            0 <= i < values.len() && i != spike ==> values[spike].below(#[trigger] values[i])),
    ensures
        reduced_places(values, threshold, ratio).contains(spike as usize),
{
    let places = reduced_places(values, threshold, ratio);
    match preselection(values.len() as usize, threshold, ratio) {
        None => {
            assert(places[spike] == spike);
        },
        Some(count) => {
            let buckets = count as nat;
            lemma_preselection(values.len() as usize, threshold, ratio);
            multiples_come_back(values.len(), buckets);
            lemma_shares_grow(values.len(), buckets, buckets, buckets);
            if spike == values.len() - 1 {
                assert(places[places.len() - 1] == spike);
            } else {
                let bucket = lemma_bucket_of(values.len(), buckets, buckets, spike);
                let (start, end) = bucket_places(values.len(), buckets, bucket);
                lemma_spike_is_extreme(values, start, end, spike);
                lemma_extremes_kept(values, buckets, buckets, bucket, spike as usize);
                let middle = bucket_extremes(values, buckets, buckets);
                let i = choose|i: int| 0 <= i < middle.len() && middle[i] == spike as usize;
                assert(places[1 + i] == spike);
            }
        },
    }
}

proof fn lemma_preselection(len: usize, threshold: usize, ratio: usize)
    ensures
        preselection(len, threshold, ratio) matches Some(buckets) ==> 0 < buckets < len,
{
    let ratio = if ratio < 1 {
        1int
    } else {
        ratio as int
    };
    if threshold >= 3 {
        assert(0 < (threshold - 2) * ratio <= threshold * ratio) by (nonlinear_arith)
            requires
                threshold >= 3,
                ratio >= 1,
        ;
    }
}

proof fn lemma_extremes_in_place(values: Seq<Float64>, start: int, end: int)
    requires
        0 <= start <= end <= values.len() <= usize::MAX,
    ensures
        forall|i: int|
            0 <= i < extremes(values, start, end).len() ==> start <= #[trigger] extremes(
                values,
                start,
                end,
            )[i] < end,
        forall|i: int, j: int|
            0 <= i < j < extremes(values, start, end).len() ==> (#[trigger] extremes(
                values,
                start,
                end,
            )[i]) <= (#[trigger] extremes(values, start, end)[j]),
    decreases end - start,
{
    lemma_extremes_found(values, start, end);
}

proof fn lemma_extremes_found(values: Seq<Float64>, start: int, end: int)
    requires
        0 <= start <= end <= values.len(),
    ensures
        start < end ==> (lowest(values, start, end) matches Some(low) && start <= low < end),
        start < end ==> (highest(values, start, end) matches Some(high) && start <= high < end),
        start == end ==> lowest(values, start, end) is None && highest(values, start, end) is None,
    decreases end - start,
{
    if start < end {
        lemma_extremes_found(values, start, end - 1);
    }
}

proof fn lemma_buckets_in_order(values: Seq<Float64>, all: nat, buckets: nat)
    requires
        0 < all < values.len() < 0x10_0000_0000_0000,
        values.len() < usize::MAX,
        buckets <= all,
    ensures
        forall|i: int|
            0 <= i < bucket_extremes(values, all, buckets).len() ==> (#[trigger] bucket_extremes(
                values,
                all,
                buckets,
            )[i]) < share(buckets, values.len(), all),
        forall|i: int, j: int|
            0 <= i < j < bucket_extremes(values, all, buckets).len() ==> (
            #[trigger] bucket_extremes(values, all, buckets)[i]) <= (#[trigger] bucket_extremes(
                values,
                all,
                buckets,
            )[j]),
    decreases buckets,
{
    if buckets > 0 {
        let before = (buckets - 1) as nat;
        lemma_buckets_in_order(values, all, before);
        lemma_shares_grow(values.len(), all, before, buckets);
        lemma_shares_grow(values.len(), all, buckets, buckets);
        let (start, end) = bucket_places(values.len(), all, before as int);
        lemma_extremes_in_place(values, start, end);
        let earlier = bucket_extremes(values, all, before);
        let added = extremes(values, start, end);
        let both = bucket_extremes(values, all, buckets);
        assert(both == earlier + added);
        assert forall|i: int| 0 <= i < both.len() implies (#[trigger] both[i]) < share(
            buckets,
            values.len(),
            all,
        ) by {
            if i < earlier.len() {
                assert(both[i] == earlier[i]);
            } else {
                assert(both[i] == added[i - earlier.len()]);
            }
        }
        assert forall|i: int, j: int| 0 <= i < j < both.len() implies (#[trigger] both[i]) <= (
        #[trigger] both[j]) by {
            if j < earlier.len() {
                assert(both[i] == earlier[i] && both[j] == earlier[j]);
            } else if i >= earlier.len() {
                assert(both[i] == added[i - earlier.len()]);
                assert(both[j] == added[j - earlier.len()]);
            } else {
                assert(both[i] == earlier[i]);
                assert(both[j] == added[j - earlier.len()]);
            }
        }
    }
}

/// The points that are worth measuring are in order, and both ends are among them. Up to 2^52
/// points.
pub proof fn a_reduction_stays_in_order(values: Seq<Float64>, threshold: usize, ratio: usize)
    requires
        0 < values.len() < 0x10_0000_0000_0000,
        values.len() < usize::MAX,
    ensures
        reduced_places(values, threshold, ratio).len() > 0,
        reduced_places(values, threshold, ratio)[0] == 0,
        reduced_places(values, threshold, ratio).last() == values.len() - 1,
        never_goes_down(reduced_places(values, threshold, ratio)),
{
    let places = reduced_places(values, threshold, ratio);
    if let Some(count) = preselection(values.len() as usize, threshold, ratio) {
        let buckets = count as nat;
        lemma_preselection(values.len() as usize, threshold, ratio);
        lemma_buckets_in_order(values, buckets, buckets);
        lemma_shares_grow(values.len(), buckets, buckets, buckets);
        let middle = bucket_extremes(values, buckets, buckets);
        assert forall|i: int, j: int| 0 <= i < j < places.len() implies (#[trigger] places[i]) <= (
        #[trigger] places[j]) by {
            if 1 <= i {
                assert(places[i] == middle[i - 1]);
            }
            if j < places.len() - 1 {
                assert(places[j] == middle[j - 1]);
            }
        }
    }
}

/// Of fewer than 2^52 points every bucket has an extreme, and no more than it has points.
proof fn lemma_many_extremes(values: Seq<Float64>, all: nat, buckets: nat)
    requires
        0 < all < values.len() < 0x10_0000_0000_0000,
        values.len() < usize::MAX,
        buckets <= all,
    ensures
        bucket_extremes(values, all, buckets).len() >= buckets,
        bucket_extremes(values, all, buckets).len() <= share(buckets, values.len(), all),
    decreases buckets,
{
    if buckets > 0 {
        let before = (buckets - 1) as nat;
        lemma_many_extremes(values, all, before);
        multiples_come_back(values.len(), all);
        lemma_shares_grow(values.len(), all, before, buckets);
        lemma_shares_grow(values.len(), all, buckets, buckets);
        let (start, end) = bucket_places(values.len(), all, before as int);
        lemma_extremes_found(values, start, end);
    }
}

/// Enough is kept to choose from: as many points as the budget, where there are as many. Up to
/// 2^52 points.
proof fn lemma_reduced_len(values: Seq<Float64>, threshold: usize, ratio: usize)
    requires
        can_be_shared(values.len()),
    ensures
        ({
            let places = reduced_places(values, threshold, ratio);
            &&& places.len() <= 0x10_0000_0000_0000
            &&& places.len() <= usize::MAX
            &&& preselection(values.len() as usize, threshold, ratio) is Some ==> 3 <= threshold
                <= places.len() && threshold < values.len()
        }),
{
    if let Some(count) = preselection(values.len() as usize, threshold, ratio) {
        lemma_preselection(values.len() as usize, threshold, ratio);
        lemma_many_extremes(values, count as nat, count as nat);
        lemma_shares_grow(values.len(), count as nat, count as nat, count as nat);
        let times = if ratio < 1 {
            1int
        } else {
            ratio as int
        };
        assert((threshold - 2) * times >= threshold - 2) by (nonlinear_arith)
            requires
                threshold >= 3,
                times >= 1,
        ;
    }
}

/// Whether places are all of points there are.
pub open spec fn lie_among(places: Seq<usize>, count: nat) -> bool {
    forall|i: int| 0 <= i < places.len() ==> (#[trigger] places[i]) < count
}

proof fn lemma_extremes_lie_among(values: Seq<Float64>, all: nat, buckets: nat)
    requires
        values.len() <= usize::MAX,
    ensures
        lie_among(bucket_extremes(values, all, buckets), values.len()),
    decreases buckets,
{
    if buckets > 0 {
        lemma_extremes_lie_among(values, all, (buckets - 1) as nat);
        let (start, end) = bucket_places(values.len(), all, buckets - 1);
        let earlier = bucket_extremes(values, all, (buckets - 1) as nat);
        let added = extremes(values, start, end);
        if start < end {
            lemma_extremes_in_place(values, start, end);
        }
        assert forall|i: int| 0 <= i < (earlier + added).len() implies (#[trigger] (earlier
            + added)[i]) < values.len() by {
            if i >= earlier.len() {
                assert((earlier + added)[i] == added[i - earlier.len()]);
            }
        }
    }
}

proof fn lemma_reduced_lie_among(values: Seq<Float64>, threshold: usize, ratio: usize)
    requires
        values.len() <= usize::MAX,
    ensures
        lie_among(reduced_places(values, threshold, ratio), values.len()),
{
    if let Some(buckets) = preselection(values.len() as usize, threshold, ratio) {
        lemma_preselection(values.len() as usize, threshold, ratio);
        lemma_extremes_lie_among(values, buckets as nat, buckets as nat);
        let middle = bucket_extremes(values, buckets as nat, buckets as nat);
        let places = reduced_places(values, threshold, ratio);
        assert forall|i: int| 0 <= i < places.len() implies (#[trigger] places[i])
            < values.len() by {
            if 1 <= i < places.len() - 1 {
                assert(places[i] == middle[i - 1]);
            }
        }
    }
}

/// Whether there are few enough points that no bucket's share of them rounds to none.
pub open spec fn can_be_shared(len: nat) -> bool {
    len + 2 <= 0x10_0000_0000_0000 && len + 2 <= usize::MAX
}

/// Whether what is kept of a series of `len` points is in order, keeps both ends, and of a budget
/// of three or more is exactly the budget, or everything where that is less.
pub open spec fn fits_the_budget(kept: Seq<usize>, len: nat, threshold: usize) -> bool {
    &&& never_goes_down(kept)
    &&& len > 0 ==> kept.len() > 0 && kept[0] == 0 && kept.last() == len - 1
    &&& len == 0 ==> kept.len() == 0
    &&& threshold >= 2 ==> kept.len() <= threshold
    &&& threshold >= 3 ==> kept.len() == if threshold < len {
        threshold as nat
    } else {
        len
    }
}

proof fn lemma_two_passes(
    values: Seq<Float64>,
    threshold: usize,
    ratio: usize,
    measured: spec_fn(Triangles) -> Seq<Float64>,
)
    requires
        can_be_shared(values.len()),
        ({
            let len = reduced_places(values, threshold, ratio).len();
            let picked = lttb_places(len as usize, threshold, measured);
            3 <= threshold < len ==> picked.len() == threshold && goes_up(picked)
        }),
    ensures
        ({
            let places = reduced_places(values, threshold, ratio);
            fits_the_budget(
                at_places(places, lttb_places(places.len() as usize, threshold, measured)),
                values.len(),
                threshold,
            )
        }),
{
    let places = reduced_places(values, threshold, ratio);
    lemma_reduced_len(values, threshold, ratio);
    let len = places.len() as usize;
    let picked = lttb_places(len, threshold, measured);
    let kept = at_places(places, picked);
    the_ends_are_kept(len, threshold, measured);
    if values.len() > 0 {
        a_reduction_stays_in_order(values, threshold, ratio);
        assert(goes_up(picked));
        assert forall|i: int, j: int| 0 <= i < j < kept.len() implies (#[trigger] kept[i]) <= (
        #[trigger] kept[j]) by {
            assert(picked[i] < picked[j]);
            assert(picked[j] <= picked.last());
        }
    }
}

/// The points of a series that two passes keep: of those that are worth measuring, the ones kept so
/// that there are at most `threshold`.
pub open spec fn min_max_kept<F: Fn(&Vec<usize>, Triangles) -> Vec<Float64>>(
    values: Seq<Float64>,
    threshold: usize,
    ratio: usize,
    areas: F,
) -> Seq<usize> {
    lttb_kept(reduced_places(values, threshold, ratio), threshold, areas)
}

/// Reduces a series to at most `threshold` points in two passes: a cheap one that keeps the
/// extremes of `ratio` times as many buckets, and the careful one on what is left.
///
/// `values` are what the series shows, and what is returned are places in it. Not everything is
/// measured: `areas` is asked about the points that the first pass kept. Of fewer than 2^52 points, a
/// budget of three or more is met exactly.
pub fn min_max_lttb<F: Fn(&Vec<usize>, Triangles) -> Vec<Float64>>(
    values: &Vec<Float64>,
    threshold: usize,
    ratio: usize,
    areas: F,
) -> (r: Vec<usize>)
    requires
        measures_areas(areas, reduced_places(values@, threshold, ratio)),
    ensures
        r@ == min_max_kept(values@, threshold, ratio, areas),
        lie_among(r@, values@.len()),
        can_be_shared(values@.len()) ==> fits_the_budget(r@, values@.len(), threshold),
{
    let places = reduce(values, threshold, ratio);
    proof {
        let len: usize = values.len();
        lemma_reduced_lie_among(values@, threshold, ratio);
    }
    let kept = lttb(&places, threshold, areas);
    proof {
        let measured = |triangles: Triangles| areas_of(areas, places@, triangles);
        let picked = lttb_places(places@.len() as usize, threshold, measured);
        lemma_picks_lie_among(places@.len() as usize, threshold, measured);
        assert forall|i: int| 0 <= i < kept@.len() implies (#[trigger] kept@[i])
            < values@.len() by {
            assert(picked[i] < places@.len());
        }
        if can_be_shared(values@.len()) {
            lemma_reduced_len(values@, threshold, ratio);
            lemma_two_passes(values@, threshold, ratio, measured);
        }
    }
    kept
}

/// Two passes keep both ends of a series and its order, and exactly the budget where it is three
/// or more and there are as many points. Up to 2^52 points.
pub proof fn two_passes_stay_in_order(
    values: Seq<Float64>,
    threshold: usize,
    ratio: usize,
    measured: spec_fn(Triangles) -> Seq<Float64>,
)
    requires
        can_be_shared(values.len()),
        measures_every_point(
            measured,
            reduced_places(values, threshold, ratio).len() as int,
        ),
    ensures
        ({
            let places = reduced_places(values, threshold, ratio);
            fits_the_budget(
                at_places(places, lttb_places(places.len() as usize, threshold, measured)),
                values.len(),
                threshold,
            )
        }),
{
    let places = reduced_places(values, threshold, ratio);
    lemma_reduced_len(values, threshold, ratio);
    if 3 <= threshold < places.len() {
        the_output_stays_in_order(places.len() as usize, threshold, measured);
    }
    lemma_two_passes(values, threshold, ratio, measured);
}

/// A ratio of none is a ratio of one: the same points are measured, and the same are kept.
pub proof fn no_ratio_is_one<F: Fn(&Vec<usize>, Triangles) -> Vec<Float64>>(
    values: Seq<Float64>,
    threshold: usize,
    areas: F,
)
    ensures
        reduced_places(values, threshold, 0) == reduced_places(values, threshold, 1),
        min_max_kept(values, threshold, 0, areas) == min_max_kept(values, threshold, 1, areas),
{
}

/// Where a series has no more points than the budget times the ratio, or the budget is less than
/// three, there is one pass: every point is measured, and what is kept is what [`lttb`] keeps of
/// all of them.
pub proof fn a_short_series_takes_one_pass<F: Fn(&Vec<usize>, Triangles) -> Vec<Float64>>(
    values: Seq<Float64>,
    threshold: usize,
    ratio: usize,
    areas: F,
)
    requires
        values.len() <= usize::MAX,
        threshold < 3 || threshold >= values.len() || threshold * ratio >= values.len(),
    ensures
        reduced_places(values, threshold, ratio) == every_place(values.len()),
        min_max_kept(values, threshold, ratio, areas) == lttb_kept(
            every_place(values.len()),
            threshold,
            areas,
        ),
{
    if ratio < 1 {
        assert(threshold * ratio == 0) by (nonlinear_arith)
            requires
                ratio == 0,
        ;
    }
}

/// Whether distances are measured: between any two of `len` points, one for each of the points
/// between them, and always the same.
pub open spec fn measures_distances<F: Fn(usize, usize) -> Vec<Float64>>(
    distances: F,
    len: usize,
) -> bool {
    &&& forall|start: usize, end: usize|
        start < end < len ==> #[trigger] distances.requires((start, end))
    &&& forall|start: usize, end: usize, r: Vec<Float64>|
        start < end < len && #[trigger] distances.ensures((start, end), r) ==> r@.len() == end
            - start - 1
    &&& forall|start: usize, end: usize, r: Vec<Float64>, s: Vec<Float64>|
        #[trigger] distances.ensures((start, end), r) && #[trigger] distances.ensures(
            (start, end),
            s,
        ) ==> r@ == s@
}

/// Whether a stretch comes apart down to its points where it is split at the point farthest from
/// the line through its ends, and so is each part: there always is one off that line.
pub open spec fn comes_apart<F: Fn(usize, usize) -> Vec<Float64>>(
    distances: F,
    start: int,
    end: int,
) -> bool
    decreases end - start,
{
    end <= start + 1 || forall|r: Vec<Float64>| #[trigger]
        distances.ensures((start as usize, end as usize), r) ==> match first_largest(
            r@,
            Float64 { bits: ZERO },
        ) {
            Some(offset) => 0 <= offset < end - start - 1 && comes_apart(
                distances,
                start,
                start + 1 + offset,
            ) && comes_apart(distances, start + 1 + offset, end),
            None => false,
        }
}

/// Whether a tolerance can be met: it is not below zero, or the series comes apart down to its
/// points, so that every point is kept.
pub open spec fn can_be_met<F: Fn(usize, usize) -> Vec<Float64>>(
    distances: F,
    len: usize,
    epsilon: Float64,
) -> bool {
    epsilon.below(Float64 { bits: ZERO }) && len >= 3 ==> comes_apart(distances, 0, len - 1)
}

/// Whether several stretches come apart down to their points.
spec fn all_come_apart<F: Fn(usize, usize) -> Vec<Float64>>(
    distances: F,
    segments: Seq<(usize, usize)>,
) -> bool {
    forall|i: int|
        0 <= i < segments.len() ==> comes_apart(
            distances,
            (#[trigger] segments[i]).0 as int,
            segments[i].1 as int,
        )
}

proof fn lemma_last_comes_apart<F: Fn(usize, usize) -> Vec<Float64>>(
    distances: F,
    segments: Seq<(usize, usize)>,
)
    requires
        segments.len() > 0,
    ensures
        all_come_apart(distances, segments) <==> all_come_apart(distances, segments.drop_last())
            && comes_apart(distances, segments.last().0 as int, segments.last().1 as int),
{
    let rest = segments.drop_last();
    if all_come_apart(distances, segments) {
        assert forall|i: int| 0 <= i < rest.len() implies comes_apart(
            distances,
            (#[trigger] rest[i]).0 as int,
            rest[i].1 as int,
        ) by {
            assert(segments[i] == rest[i]);
        }
        assert(segments[segments.len() - 1] == segments.last());
    }
    if all_come_apart(distances, rest) && comes_apart(
        distances,
        segments.last().0 as int,
        segments.last().1 as int,
    ) {
        assert forall|i: int| 0 <= i < segments.len() implies comes_apart(
            distances,
            (#[trigger] segments[i]).0 as int,
            segments[i].1 as int,
        ) by {
            if i < rest.len() {
                assert(segments[i] == rest[i]);
            }
        }
    }
}

/// The one answer there is decides whether a stretch comes apart.
proof fn lemma_comes_apart<F: Fn(usize, usize) -> Vec<Float64>>(
    distances: F,
    len: usize,
    start: usize,
    end: usize,
    sizes: Vec<Float64>,
)
    requires
        measures_distances(distances, len),
        start + 1 < end < len,
        distances.ensures((start, end), sizes),
    ensures
        comes_apart(distances, start as int, end as int) <==> match first_largest(
            sizes@,
            Float64 { bits: ZERO },
        ) {
            Some(offset) => comes_apart(distances, start as int, start + 1 + offset)
                && comes_apart(distances, start + 1 + offset, end as int),
            None => false,
        },
{
    let zero = Float64 { bits: ZERO };
    let (first, last) = (start as int, end as int);
    lemma_offset(sizes@, zero);
    assert(sizes@.len() == end - start - 1);
    assert(first as usize == start && last as usize == end);
    if comes_apart(distances, first, last) {
        assert(distances.ensures((first as usize, last as usize), sizes));
    }
    if let Some(offset) = first_largest(sizes@, zero) {
        if comes_apart(distances, first, first + 1 + offset) && comes_apart(
            distances,
            first + 1 + offset,
            last,
        ) {
            assert forall|r: Vec<Float64>| #[trigger]
                distances.ensures((first as usize, last as usize), r) implies match first_largest(
                r@,
                Float64 { bits: ZERO },
            ) {
                Some(offset) => 0 <= offset < last - first - 1 && comes_apart(
                    distances,
                    first,
                    first + 1 + offset,
                ) && comes_apart(distances, first + 1 + offset, last),
                None => false,
            } by {
                assert(distances.ensures((start, end), r));
                assert(r@ == sizes@);
            }
            assert(comes_apart(distances, first, last));
        }
    }
}

/// Whether a tolerance can be met.
///
/// No line meets a tolerance below zero: there the series has to come apart down to its points,
/// which is looked for segment by segment.
pub fn can_simplify<F: Fn(usize, usize) -> Vec<Float64>>(
    len: usize,
    epsilon: Float64,
    distances: F,
) -> (r: bool)
    requires
        measures_distances(distances, len),
    ensures
        r == can_be_met(distances, len, epsilon),
{
    let floor = Float64::from_bits(ZERO);
    if !epsilon.lt(floor) || len < 3 {
        return true;
    }
    let mut segments: Vec<(usize, usize)> = Vec::new();
    segments.push((0, len - 1));
    assert(segments@[0] == (0usize, (len - 1) as usize));
    while segments.len() > 0
        invariant
            len >= 3,
            measures_distances(distances, len),
            floor == (Float64 { bits: ZERO }),
            epsilon.below(floor),
            forall|i: int|
                0 <= i < segments@.len() ==> (#[trigger] segments@[i]).0 < segments@[i].1 < len,
            comes_apart(distances, 0, len - 1) <==> all_come_apart(distances, segments@),
        decreases left_over(segments@),
    {
        let ghost before = segments@;
        proof {
            lemma_left_over(before);
            lemma_left_over(before.drop_last());
        }
        let (start, end) = match segments.pop() {
            Some(segment) => segment,
            None => (0, 1),
        };
        assert(before[before.len() - 1] == (start, end));
        assert(segments@ =~= before.drop_last());
        let ghost rest = segments@;
        assert(left_over(before) == left_over(rest) + 2 * (end - start) - 1);
        assert(all_come_apart(distances, before) <==> all_come_apart(distances, rest)
            && comes_apart(distances, start as int, end as int)) by {
            lemma_last_comes_apart(distances, before);
        }
        if end > start + 1 {
            let sizes = distances(start, end);
            proof {
                lemma_comes_apart(distances, len, start, end, sizes);
            }
            match pick_largest(&sizes, floor) {
                Some(offset) => {
                    let middle: usize = start + 1 + offset;
                    segments.push((middle, end));
                    let ghost half = segments@;
                    segments.push((start, middle));
                    proof {
                        assert(half.drop_last() =~= rest);
                        assert(segments@.drop_last() =~= half);
                        assert forall|i: int| 0 <= i < segments@.len() implies (
                        #[trigger] segments@[i]).0 < segments@[i].1 < len by {
                            if i < rest.len() {
                                assert(segments@[i] == before[i]);
                            }
                        }
                        assert(left_over(half) == left_over(rest) + 2 * (end - middle) - 1);
                        assert(left_over(segments@) == left_over(half) + 2 * (middle - start) - 1);
                        lemma_left_over(segments@);
                        lemma_last_comes_apart(distances, half);
                        lemma_last_comes_apart(distances, segments@);
                    }
                },
                None => {
                    return false;
                },
            }
        }
    }
    true
}

/// How far the points between two others are from the line through them.
pub open spec fn distances_of<F: Fn(usize, usize) -> Vec<Float64>>(
    distances: F,
    start: usize,
    end: usize,
) -> Seq<Float64> {
    (choose|r: Vec<Float64>| distances.ensures((start, end), r))@
}

/// The point between two others that is too far from the line through them, if one is: the
/// farthest, and the first of those as far.
pub open spec fn farthest(
    measured: spec_fn(usize, usize) -> Seq<Float64>,
    epsilon: Float64,
    start: int,
    end: int,
) -> Option<int> {
    if end <= start + 1 {
        None
    } else {
        let sizes = measured(start as usize, end as usize);
        match first_largest(sizes, Float64 { bits: ZERO }) {
            Some(offset) => if 0 <= offset < end - start - 1 && epsilon.below(sizes[offset]) {
                Some(start + 1 + offset)
            } else {
                None
            },
            None => None,
        }
    }
}

/// The points that are kept behind one point and up to another.
pub open spec fn kept_between(
    measured: spec_fn(usize, usize) -> Seq<Float64>,
    epsilon: Float64,
    start: int,
    end: int,
) -> Seq<usize>
    decreases end - start,
{
    match farthest(measured, epsilon, start, end) {
        Some(split) => if start < split < end {
            kept_between(measured, epsilon, start, split) + kept_between(
                measured,
                epsilon,
                split,
                end,
            )
        } else {
            seq![end as usize]
        },
        None => seq![end as usize],
    }
}

/// The points that are kept in a stretch of segments, the last of which comes first.
pub open spec fn kept_in(
    measured: spec_fn(usize, usize) -> Seq<Float64>,
    epsilon: Float64,
    segments: Seq<(usize, usize)>,
) -> Seq<usize>
    decreases segments.len(),
{
    if segments.len() == 0 {
        Seq::empty()
    } else {
        kept_between(
            measured,
            epsilon,
            segments.last().0 as int,
            segments.last().1 as int,
        ) + kept_in(measured, epsilon, segments.drop_last())
    }
}

/// How much there is to measure in a stretch of segments.
spec fn left_over(segments: Seq<(usize, usize)>) -> int
    decreases segments.len(),
{
    if segments.len() == 0 {
        0
    } else {
        left_over(segments.drop_last()) + 2 * (segments.last().1 - segments.last().0) - 1
    }
}

/// Which of `len` points to keep so that none of the others is farther than `epsilon` from the
/// line.
pub open spec fn rdp_places(
    len: usize,
    epsilon: Float64,
    measured: spec_fn(usize, usize) -> Seq<Float64>,
) -> Seq<usize> {
    if len < 3 {
        Seq::new(len as nat, |i: int| i as usize)
    } else {
        seq![0usize] + kept_between(measured, epsilon, 0, len - 1)
    }
}

/// Whether no point between two others is too far from the line through them.
pub open spec fn close_enough(
    measured: spec_fn(usize, usize) -> Seq<Float64>,
    epsilon: Float64,
    start: int,
    end: int,
) -> bool {
    forall|i: int|
        0 <= i < end - start - 1 ==> !epsilon.below(
            #[trigger] measured(start as usize, end as usize)[i],
        )
}

/// Whether no point between two kept ones that follow each other is too far from the line through
/// them.
pub open spec fn stays_close(
    measured: spec_fn(usize, usize) -> Seq<Float64>,
    epsilon: Float64,
    kept: Seq<usize>,
) -> bool {
    forall|i: int|
        0 < i < kept.len() ==> close_enough(
            measured,
            epsilon,
            kept[i - 1] as int,
            #[trigger] kept[i] as int,
        )
}

/// Where the farthest is not too far, none is.
proof fn lemma_nothing_too_far(sizes: Seq<Float64>, epsilon: Float64)
    requires
        epsilon.below(Float64 { bits: ZERO }) ==> first_largest(
            sizes,
            Float64 { bits: ZERO },
        ) is Some,
        first_largest(sizes, Float64 { bits: ZERO }) matches Some(offset) ==> !epsilon.below(
            sizes[offset],
        ),
    ensures
        forall|i: int| 0 <= i < sizes.len() ==> !epsilon.below(#[trigger] sizes[i]),
{
    let floor = Float64 { bits: ZERO };
    the_first_largest_is_picked(sizes, floor);
    assert forall|i: int| 0 <= i < sizes.len() implies !epsilon.below(#[trigger] sizes[i]) by {
        match first_largest(sizes, floor) {
            Some(offset) => {
                assert(!sizes[offset].below(sizes[i]));
            },
            None => {
                assert(!floor.below(sizes[i]));
            },
        }
    }
}

proof fn lemma_left_over(segments: Seq<(usize, usize)>)
    requires
        forall|i: int| 0 <= i < segments.len() ==> (#[trigger] segments[i]).0 < segments[i].1,
    ensures
        left_over(segments) >= segments.len(),
    decreases segments.len(),
{
    if segments.len() > 0 {
        let init = segments.drop_last();
        assert forall|i: int| 0 <= i < init.len() implies (#[trigger] init[i]).0 < init[i].1 by {
            assert(segments[i].0 < segments[i].1);
        }
        lemma_left_over(init);
        assert(segments[segments.len() - 1].0 < segments[segments.len() - 1].1);
    }
}

/// Ramer-Douglas-Peucker simplification of `len` points with a tolerance.
///
/// `distances` measures how far the points between two others are from the line through them. No
/// line meets a tolerance below zero, so there every point has to be off it. Iterative rather than recursive: a pathological series must not run out of stack.
pub fn rdp<F: Fn(usize, usize) -> Vec<Float64>>(len: usize, epsilon: Float64, distances: F) -> (r:
    Vec<usize>)
    requires
        measures_distances(distances, len),
        can_be_met(distances, len, epsilon),
    ensures
        r@ == rdp_places(
            len,
            epsilon,
            |start: usize, end: usize| distances_of(distances, start, end),
        ),
        stays_close(
            |start: usize, end: usize| distances_of(distances, start, end),
            epsilon,
            r@,
        ),
{
    let mut kept: Vec<usize> = Vec::new();
    if len < 3 {
        let mut place: usize = 0;
        while place < len
            invariant
                place <= len,
                kept@ == Seq::new(place as nat, |i: int| i as usize),
            decreases len - place,
        {
            kept.push(place);
            place = place + 1;
            assert(kept@ =~= Seq::new(place as nat, |i: int| i as usize));
        }
        return kept;
    }
    let floor = Float64::from_bits(ZERO);
    let ghost measured = |start: usize, end: usize| distances_of(distances, start, end);
    let ghost all = rdp_places(len, epsilon, measured);
    kept.push(0);
    let mut segments: Vec<(usize, usize)> = Vec::new();
    segments.push((0, len - 1));
    proof {
        assert(segments@.drop_last() =~= Seq::empty());
        let rest = kept_in(measured, epsilon, segments@.drop_last());
        assert(rest =~= Seq::empty());
        assert(kept@ + kept_in(measured, epsilon, segments@) =~= all);
    }
    while segments.len() > 0
        invariant
            len >= 3,
            measures_distances(distances, len),
            measured == |start: usize, end: usize| distances_of(distances, start, end),
            floor == (Float64 { bits: ZERO }),
            forall|i: int|
                0 <= i < segments@.len() ==> (#[trigger] segments@[i]).0 < segments@[i].1 < len,
            kept@ + kept_in(measured, epsilon, segments@) == all,
            epsilon.below(floor) ==> all_come_apart(distances, segments@),
            kept@.len() > 0,
            segments@.len() > 0 ==> segments@.last().0 == kept@.last(),
            forall|i: int|
                0 < i < segments@.len() ==> segments@[i - 1].0 == (#[trigger] segments@[i]).1,
            stays_close(measured, epsilon, kept@),
        decreases left_over(segments@),
    {
        proof {
            lemma_left_over(segments@);
            lemma_left_over(segments@.drop_last());
        }
        let ghost before = segments@;
        let (start, end) = match segments.pop() {
            Some(segment) => segment,
            None => (0, 1),
        };
        assert(before[before.len() - 1] == (start, end));
        assert(segments@ =~= before.drop_last());
        let ghost rest = segments@;
        assert(left_over(before) == left_over(rest) + 2 * (end - start) - 1);
        assert forall|i: int| 0 <= i < rest.len() implies #[trigger] rest[i] == before[i] by {}
        assert(epsilon.below(floor) ==> comes_apart(distances, start as int, end as int)) by {
            assert(before[before.len() - 1].0 == start);
        }
        let mut split: Option<usize> = None;
        if end > start + 1 {
            let sizes = distances(start, end);
            proof {
                lemma_comes_apart(distances, len, start, end, sizes);
            }
            assert(sizes@ == measured(start, end));
            if let Some(offset) = pick_largest(&sizes, floor) {
                if epsilon.lt(sizes[offset]) {
                    split = Some(start + 1 + offset);
                }
            }
        }
        match split {
            Some(middle) => {
                segments.push((middle, end));
                let ghost half = segments@;
                segments.push((start, middle));
                proof {
                    assert(half.drop_last() =~= rest);
                    assert(segments@.drop_last() =~= half);
                    let first = kept_between(measured, epsilon, start as int, middle as int);
                    let second = kept_between(measured, epsilon, middle as int, end as int);
                    let others = kept_in(measured, epsilon, rest);
                    assert(kept_in(measured, epsilon, half) == second + others);
                    assert(kept_in(measured, epsilon, segments@) == first + (second + others));
                    assert(first + (second + others) =~= (first + second) + others);
                    assert forall|i: int| 0 <= i < segments@.len() implies (
                    #[trigger] segments@[i]).0 < segments@[i].1 < len by {
                        if i < rest.len() {
                            assert(segments@[i] == before[i]);
                        }
                    }
                    assert(left_over(half) == left_over(rest) + 2 * (end - middle) - 1);
                    assert(left_over(segments@) == left_over(half) + 2 * (middle - start) - 1);
                    lemma_left_over(segments@);
                }
            },
            None => {
                let ghost earlier = kept@;
                kept.push(end);
                proof {
                    lemma_left_over(rest);
                    assert(segments@.len() > 0 ==> segments@.last() == before[before.len() - 2]);
                    assert(close_enough(measured, epsilon, start as int, end as int)) by {
                        if end > start + 1 {
                            lemma_nothing_too_far(measured(start, end), epsilon);
                        }
                    }
                    assert forall|i: int| 0 < i < kept@.len() implies close_enough(
                        measured,
                        epsilon,
                        kept@[i - 1] as int,
                        #[trigger] kept@[i] as int,
                    ) by {
                        if i < earlier.len() {
                            assert(kept@[i] == earlier[i]);
                        }
                    }
                    let others = kept_in(measured, epsilon, rest);
                    assert(kept_in(measured, epsilon, before) == seq![end] + others);
                    assert(kept@ + others =~= earlier + (seq![end] + others));
                }
            },
        }
    }
    assert(kept@ + kept_in(measured, epsilon, segments@) =~= kept@);
    kept
}

/// The points kept behind one point and up to another are in order and end with the other.
proof fn lemma_between(
    measured: spec_fn(usize, usize) -> Seq<Float64>,
    epsilon: Float64,
    start: int,
    end: int,
)
    requires
        0 <= start < end <= usize::MAX,
    ensures
        kept_between(measured, epsilon, start, end).len() > 0,
        kept_between(measured, epsilon, start, end).last() == end,
        forall|i: int|
            0 <= i < kept_between(measured, epsilon, start, end).len() ==> start
                < #[trigger] kept_between(measured, epsilon, start, end)[i] <= end,
        forall|i: int, j: int|
            0 <= i < j < kept_between(measured, epsilon, start, end).len() ==> (
            #[trigger] kept_between(measured, epsilon, start, end)[i]) < (#[trigger] kept_between(
                measured,
                epsilon,
                start,
                end,
            )[j]),
    decreases end - start,
{
    match farthest(measured, epsilon, start, end) {
        Some(split) => {
            if start < split < end {
                lemma_between(measured, epsilon, start, split);
                lemma_between(measured, epsilon, split, end);
                let first = kept_between(measured, epsilon, start, split);
                let second = kept_between(measured, epsilon, split, end);
                let all = kept_between(measured, epsilon, start, end);
                assert(all == first + second);
                assert forall|i: int| 0 <= i < all.len() implies start < #[trigger] all[i]
                    <= end by {
                    if i < first.len() {
                        assert(all[i] == first[i]);
                    } else {
                        assert(all[i] == second[i - first.len()]);
                    }
                }
                assert forall|i: int, j: int| 0 <= i < j < all.len() implies (#[trigger] all[i]) < (
                #[trigger] all[j]) by {
                    if j < first.len() {
                        assert(first[i] < first[j]);
                    } else if i >= first.len() {
                        assert(second[i - first.len()] < second[j - first.len()]);
                    } else {
                        assert(first[i] <= split);
                        assert(split < second[j - first.len()]);
                    }
                }
            }
        },
        None => {},
    }
}

/// The simplification keeps both ends, is in order, and names only points there are.
pub proof fn a_simplification_keeps_the_ends(
    len: usize,
    epsilon: Float64,
    measured: spec_fn(usize, usize) -> Seq<Float64>,
)
    requires
        len > 0,
    ensures
        rdp_places(len, epsilon, measured).len() > 0,
        rdp_places(len, epsilon, measured)[0] == 0,
        rdp_places(len, epsilon, measured).last() == len - 1,
        forall|i: int, j: int|
            0 <= i < j < rdp_places(len, epsilon, measured).len() ==> (#[trigger] rdp_places(
                len,
                epsilon,
                measured,
            )[i]) < (#[trigger] rdp_places(len, epsilon, measured)[j]),
{
    if len >= 3 {
        lemma_between(measured, epsilon, 0, len - 1);
        let kept = kept_between(measured, epsilon, 0, len - 1);
        let all = rdp_places(len, epsilon, measured);
        assert forall|i: int, j: int| 0 <= i < j < all.len() implies (#[trigger] all[i]) < (
        #[trigger] all[j]) by {
            assert(all[j] == kept[j - 1]);
            if i > 0 {
                assert(all[i] == kept[i - 1]);
            }
        }
    }
}

/// Whether a stretch comes apart down to its points by what was measured.
pub open spec fn taken_apart(
    measured: spec_fn(usize, usize) -> Seq<Float64>,
    start: int,
    end: int,
) -> bool
    decreases end - start,
{
    end <= start + 1 || match first_largest(
        measured(start as usize, end as usize),
        Float64 { bits: ZERO },
    ) {
        Some(offset) => 0 <= offset < end - start - 1 && taken_apart(
            measured,
            start,
            start + 1 + offset,
        ) && taken_apart(measured, start + 1 + offset, end),
        None => false,
    }
}

/// Whether there is a distance for each point between any two of `len` points.
pub open spec fn measures_between(
    measured: spec_fn(usize, usize) -> Seq<Float64>,
    len: usize,
) -> bool {
    forall|start: usize, end: usize|
        start < end < len ==> (#[trigger] measured(start, end)).len() == end - start - 1
}

proof fn lemma_close_enough(
    measured: spec_fn(usize, usize) -> Seq<Float64>,
    epsilon: Float64,
    len: usize,
    start: int,
    end: int,
    place: int,
)
    requires
        0 <= start < end < len,
        measures_between(measured, len),
        epsilon.below(Float64 { bits: ZERO }) ==> taken_apart(measured, start, end),
        0 <= place < kept_between(measured, epsilon, start, end).len(),
    ensures
        close_enough(
            measured,
            epsilon,
            if place == 0 {
                start
            } else {
                kept_between(measured, epsilon, start, end)[place - 1] as int
            },
            kept_between(measured, epsilon, start, end)[place] as int,
        ),
    decreases end - start,
{
    let all = kept_between(measured, epsilon, start, end);
    match farthest(measured, epsilon, start, end) {
        Some(split) => {
            assert(start < split < end);
            let first = kept_between(measured, epsilon, start, split);
            let second = kept_between(measured, epsilon, split, end);
            assert(all == first + second);
            lemma_between(measured, epsilon, start, split);
            if place < first.len() {
                lemma_close_enough(measured, epsilon, len, start, split, place);
            } else {
                lemma_close_enough(measured, epsilon, len, split, end, place - first.len());
                if place == first.len() {
                    assert(all[place - 1] == first.last());
                }
            }
        },
        None => {
            if end > start + 1 {
                let sizes = measured(start as usize, end as usize);
                assert(sizes.len() == end - start - 1);
                lemma_offset(sizes, Float64 { bits: ZERO });
                lemma_nothing_too_far(sizes, epsilon);
            }
        },
    }
}

/// No point that is dropped is farther than the tolerance from the line through the two kept
/// points it stands between.
pub proof fn what_is_dropped_is_within_the_tolerance(
    len: usize,
    epsilon: Float64,
    measured: spec_fn(usize, usize) -> Seq<Float64>,
)
    requires
        measures_between(measured, len),
        epsilon.below(Float64 { bits: ZERO }) && len >= 3 ==> taken_apart(measured, 0, len - 1),
    ensures
        stays_close(measured, epsilon, rdp_places(len, epsilon, measured)),
{
    let kept = rdp_places(len, epsilon, measured);
    if len >= 3 {
        assert forall|i: int| 0 < i < kept.len() implies close_enough(
            measured,
            epsilon,
            kept[i - 1] as int,
            #[trigger] kept[i] as int,
        ) by {
            lemma_close_enough(measured, epsilon, len, 0, len - 1, i - 1);
        }
    }
}

proof fn lemma_kept_for_a_reason(
    measured: spec_fn(usize, usize) -> Seq<Float64>,
    epsilon: Float64,
    start: int,
    end: int,
    place: int,
) -> (r: (int, int))
    requires
        0 <= start < end <= usize::MAX,
        0 <= place < kept_between(measured, epsilon, start, end).len() - 1,
    ensures
        ({
            let kept = seq![start as usize] + kept_between(measured, epsilon, start, end);
            &&& 0 <= r.0 <= place < place + 1 < r.1 < kept.len()
            &&& stands_out(
                measured,
                epsilon,
                kept[r.0] as int,
                kept[place + 1] as int,
                kept[r.1] as int,
            )
        }),
    decreases end - start,
{
    let all = kept_between(measured, epsilon, start, end);
    let split = farthest(measured, epsilon, start, end)->0;
    assert(farthest(measured, epsilon, start, end) is Some);
    let first = kept_between(measured, epsilon, start, split);
    let second = kept_between(measured, epsilon, split, end);
    lemma_between(measured, epsilon, start, split);
    lemma_between(measured, epsilon, split, end);
    assert(all == first + second);
    let kept = seq![start as usize] + all;
    if place < first.len() - 1 {
        let r = lemma_kept_for_a_reason(measured, epsilon, start, split, place);
        let half = seq![start as usize] + first;
        assert forall|i: int| 0 <= i < half.len() implies half[i] == #[trigger] kept[i] by {}
        r
    } else if place == first.len() - 1 {
        let sizes = measured(start as usize, end as usize);
        lemma_offset(sizes, Float64 { bits: ZERO });
        assert(kept[0] == start);
        assert(kept[place + 1] == first.last());
        assert(kept[kept.len() - 1] == second.last());
        (0, kept.len() - 1)
    } else {
        let r = lemma_kept_for_a_reason(
            measured,
            epsilon,
            split,
            end,
            place - first.len(),
        );
        let half = seq![split as usize] + second;
        let n = first.len() as int;
        assert forall|i: int| 0 <= i < half.len() implies half[i] == #[trigger] kept[i + n] by {
            if i == 0 {
                assert(kept[n] == first[n - 1]);
            }
        }
        assert(half[r.0] == kept[r.0 + n]);
        assert(half[r.1] == kept[r.1 + n]);
        assert(half[place - n + 1] == kept[place + 1]);
        (r.0 + n, r.1 + n)
    }
}

/// Whether a point between two others is farther than the tolerance from the line through them.
pub open spec fn stands_out(
    measured: spec_fn(usize, usize) -> Seq<Float64>,
    epsilon: Float64,
    start: int,
    place: int,
    end: int,
) -> bool {
    start < place < end && epsilon.below(measured(start as usize, end as usize)[place - start - 1])
}

/// No point is kept without a reason: each but the two ends is farther than the tolerance from the
/// line through two others that are kept, one on each side of it.
pub proof fn what_is_kept_is_beyond_the_tolerance(
    len: usize,
    epsilon: Float64,
    measured: spec_fn(usize, usize) -> Seq<Float64>,
    place: int,
)
    requires
        0 < place < rdp_places(len, epsilon, measured).len() - 1,
    ensures
        exists|before: int, after: int|
            0 <= before < place < after < rdp_places(len, epsilon, measured).len()
                && #[trigger] stands_out(
                measured,
                epsilon,
                rdp_places(len, epsilon, measured)[before] as int,
                rdp_places(len, epsilon, measured)[place] as int,
                rdp_places(len, epsilon, measured)[after] as int,
            ),
{
    if len >= 3 {
        let r = lemma_kept_for_a_reason(measured, epsilon, 0, len - 1, place - 1);
        let kept = rdp_places(len, epsilon, measured);
        assert(stands_out(
            measured,
            epsilon,
            kept[r.0] as int,
            kept[place] as int,
            kept[r.1] as int,
        ));
    }
}

/// A stretch whose farthest point is beyond the tolerance is split there, at the first of those as
/// far, and each half is simplified on its own; one whose farthest is not is a straight line.
pub proof fn a_stretch_is_split_at_its_farthest(
    measured: spec_fn(usize, usize) -> Seq<Float64>,
    epsilon: Float64,
    start: int,
    end: int,
    offset: int,
)
    requires
        0 <= start < end <= usize::MAX,
        !epsilon.below(Float64 { bits: 0 }),
        measured(start as usize, end as usize).len() == end - start - 1,
    ensures
        ({
            let sizes = measured(start as usize, end as usize);
            let split = start + 1 + offset;
            &&& 0 <= offset < sizes.len() && epsilon.below(sizes[offset]) && (forall|i: int|
                0 <= i < sizes.len() ==> !sizes[offset].below(#[trigger] sizes[i])) && (forall|i: int|
                0 <= i < offset ==> (#[trigger] sizes[i]).nan() || sizes[i].below(sizes[offset]))
                ==> kept_between(measured, epsilon, start, end) == kept_between(
                measured,
                epsilon,
                start,
                split,
            ) + kept_between(measured, epsilon, split, end)
            &&& (forall|i: int| 0 <= i < sizes.len() ==> !epsilon.below(#[trigger] sizes[i]))
                ==> kept_between(measured, epsilon, start, end) == seq![end as usize]
        }),
{
    let sizes = measured(start as usize, end as usize);
    let zero = Float64 { bits: ZERO };
    the_first_largest_is_picked(sizes, zero);
    if 0 <= offset < sizes.len() && epsilon.below(sizes[offset]) && (forall|i: int|
        0 <= i < sizes.len() ==> !sizes[offset].below(#[trigger] sizes[i])) && (forall|i: int|
        0 <= i < offset ==> (#[trigger] sizes[i]).nan() || sizes[i].below(sizes[offset])) {
        match first_largest(sizes, zero) {
            Some(found) => {
                assert(!sizes[found].below(sizes[offset]));
                assert(!sizes[offset].below(sizes[found]));
                if found < offset {
                    assert(sizes[found].nan() || sizes[found].below(sizes[offset]));
                } else if offset < found {
                    assert(sizes[offset].below(sizes[found]));
                }
                assert(found == offset);
            },
            None => {
                assert(!zero.below(sizes[offset]));
            },
        }
    }
}

/// Whether there is a first pass, and over how many buckets: where the budget is three or more and
/// the series is longer than the budget times the ratio, a ratio of none counting as one.
pub proof fn a_long_series_is_preselected(len: usize, threshold: usize, ratio: usize)
    requires
        ratio >= 1,
    ensures
        preselection(len, threshold, ratio) is Some <==> threshold >= 3 && threshold * ratio < len,
        preselection(len, threshold, ratio) matches Some(buckets) ==> buckets == (threshold - 2)
            * ratio,
        preselection(len, threshold, 0) == preselection(len, threshold, 1),
{
    assert(threshold * ratio >= threshold) by (nonlinear_arith)
        requires
            ratio >= 1,
            threshold >= 0,
    ;
}

/// The first pass keeps the lowest and the highest of every bucket: where its values are numbers,
/// one is kept that none is below, and one that none is above, the first of those as low or as high.
/// Up to 2^52 points.
pub proof fn the_extremes_of_every_bucket_are_kept(
    values: Seq<Float64>,
    threshold: usize,
    ratio: usize,
    bucket: int,
)
    requires
        values.len() < 0x10_0000_0000_0000,
        values.len() < usize::MAX,
        preselection(values.len() as usize, threshold, ratio) is Some,
        0 <= bucket < preselection(values.len() as usize, threshold, ratio)->0,
        forall|i: int| 0 <= i < values.len() ==> !(#[trigger] values[i]).nan(),
    ensures
        ({
            let all = preselection(values.len() as usize, threshold, ratio)->0 as nat;
            let start = whole_multiple(bucket as nat, values.len(), all) as int;
            let end = whole_multiple((bucket + 1) as nat, values.len(), all) as int;
            let kept = reduced_places(values, threshold, ratio);
            &&& 0 <= start < end <= values.len()
            &&& exists|low: int|
                start <= low < end && #[trigger] kept.contains(low as usize) && (forall|i: int|
                    start <= i < end ==> !(#[trigger] values[i]).below(values[low])) && (forall|
                    i: int,
                |
                    start <= i < low ==> values[low].below(#[trigger] values[i]))
            &&& exists|high: int|
                start <= high < end && #[trigger] kept.contains(high as usize) && (forall|i: int|
                    start <= i < end ==> !values[high].below(#[trigger] values[i])) && (forall|
                    i: int,
                |
                    start <= i < high ==> (#[trigger] values[i]).below(values[high]))
        }),
{
    let len = values.len();
    lemma_preselection(len as usize, threshold, ratio);
    let all = preselection(len as usize, threshold, ratio)->0 as nat;
    lemma_shares_grow(len, all, bucket as nat, (bucket + 1) as nat);
    lemma_shares_grow(len, all, (bucket + 1) as nat, (bucket + 1) as nat);
    let (start, end) = bucket_places(len, all, bucket);
    lemma_extreme_bounds(values, start, end);
    let low = lowest(values, start, end)->0;
    let high = highest(values, start, end)->0;
    let both = extremes(values, start, end);
    if low == high {
        assert(both[0] == low);
    } else if low < high {
        assert(both[0] == low && both[1] == high);
    } else {
        assert(both[0] == high && both[1] == low);
    }
    assert(both.contains(low as usize) && both.contains(high as usize));
    lemma_extremes_kept(values, all, all, bucket, low as usize);
    lemma_extremes_kept(values, all, all, bucket, high as usize);
    let middle = bucket_extremes(values, all, all);
    let kept = reduced_places(values, threshold, ratio);
    let i = choose|i: int| 0 <= i < middle.len() && middle[i] == low as usize;
    assert(kept[1 + i] == low as usize);
    let j = choose|j: int| 0 <= j < middle.len() && middle[j] == high as usize;
    assert(kept[1 + j] == high as usize);
    assert(kept.contains(low as usize) && kept.contains(high as usize));
}

/// What is kept of a series are points of it, in the order of the places that were picked.
pub proof fn what_is_kept_is_of_the_series(series: Seq<usize>, picked: Seq<usize>, place: int)
    ensures
        at_places(series, picked).len() == picked.len(),
        0 <= place < picked.len() ==> at_places(series, picked)[place] == series[picked[place] as int],
{
}

/// A series within the budget is kept whole, whatever the triangles; and of a longer one a budget
/// below three keeps the two ends and nothing else.
pub proof fn a_small_budget_keeps_the_ends(
    len: usize,
    threshold: usize,
    measured: spec_fn(Triangles) -> Seq<Float64>,
    place: int,
)
    ensures
        threshold >= len ==> lttb_places(len, threshold, measured).len() == len && (0 <= place < len
            ==> lttb_places(len, threshold, measured)[place] == place),
        threshold < 3 && threshold < len && len > 1 ==> lttb_places(len, threshold, measured)
            == seq![0usize, (len - 1) as usize],
        threshold < 3 && threshold < len && len == 1 ==> lttb_places(len, threshold, measured)
            == seq![0usize],
{
}

/// A bucket begins one behind its share of the points between the two ends: so many times the
/// quotient of points and buckets, as doubles, cut off to a whole number.
pub proof fn a_bucket_begins_at_its_share(len: usize, threshold: usize, bucket: int)
    requires
        3 <= threshold < len <= 0x10_0000_0000_0000,
        0 <= bucket <= threshold - 2,
    ensures
        edge(len as int, threshold as int, bucket) == 1 + whole_multiple(
            bucket as nat,
            (len - 2) as nat,
            (threshold - 2) as nat,
        ),
{
    lemma_shares_grow((len - 2) as nat, (threshold - 2) as nat, bucket as nat, bucket as nat);
}

} // verus!
