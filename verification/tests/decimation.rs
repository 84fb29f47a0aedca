//! Reducing a series of points to what a plot can show.

use xtce_gs::decimate::{
    can_simplify, lttb, min_max_lttb, preselect_buckets, rdp, reduce, Triangles,
};
use xtce_gs::float::Float64;

#[derive(Clone, Copy, Debug, PartialEq)]
struct Point {
    t: f64,
    v: f64,
}

fn double(value: f64) -> Float64 {
    Float64::from_bits(value.to_bits())
}

fn series(values: &[f64]) -> Vec<Point> {
    values
        .iter()
        .enumerate()
        .map(|(i, v)| Point {
            // A realistic axis: seconds since the epoch, not zero-based.
            t: 1_757_000_000.0 + i as f64 * 0.1,
            v: *v,
        })
        .collect()
}

fn areas(points: &[Point], places: &[usize], of: Triangles) -> Vec<Float64> {
    let origin = points[0].t;
    let next = places.get(of.next_start..of.next_end).unwrap_or_default();
    let (avg_t, avg_v) = if next.is_empty() {
        let last = points[places[places.len() - 1]];
        (last.t - origin, last.v)
    } else {
        let (mut sum_t, mut sum_v) = (0.0f64, 0.0f64);
        for place in next {
            sum_t += points[*place].t - origin;
            sum_v += points[*place].v;
        }
        (sum_t / next.len() as f64, sum_v / next.len() as f64)
    };
    let anchor = points[places[of.anchor]];
    places
        .get(of.start..of.end)
        .unwrap_or_default()
        .iter()
        .map(|place| {
            let point = points[*place];
            let area = ((anchor.t - origin - avg_t) * (point.v - anchor.v)
                - (anchor.t - origin - (point.t - origin)) * (avg_v - anchor.v))
                .abs();
            double(area)
        })
        .collect()
}

fn places_by_lttb(points: &[Point], threshold: usize) -> Vec<usize> {
    let places: Vec<usize> = (0..points.len()).collect();
    lttb(&places, threshold, |places: &Vec<usize>, of: Triangles| {
        areas(points, places, of)
    })
}

fn kept_by_lttb(points: &[Point], threshold: usize) -> Vec<Point> {
    let kept = places_by_lttb(points, threshold);
    kept.into_iter().map(|place| points[place]).collect()
}

fn kept_by_min_max_lttb(points: &[Point], threshold: usize, ratio: usize) -> Vec<Point> {
    let values: Vec<Float64> = points.iter().map(|p| double(p.v)).collect();
    let measure = |places: &Vec<usize>, of: Triangles| areas(points, places, of);
    min_max_lttb(&values, threshold, ratio, measure)
        .into_iter()
        .map(|place| points[place])
        .collect()
}

fn distances(points: &[Point], start: usize, end: usize) -> Vec<Float64> {
    let origin = points[0].t;
    let (ax, ay) = (points[start].t - origin, points[start].v);
    let (bx, by) = (points[end].t - origin, points[end].v);
    let norm = (bx - ax).hypot(by - ay);
    points[start + 1..end]
        .iter()
        .map(|point| {
            let (px, py) = (point.t - origin, point.v);
            double(if norm == 0.0 {
                (px - ax).hypot(py - ay)
            } else {
                ((bx - ax) * (ay - py) - (ax - px) * (by - ay)).abs() / norm
            })
        })
        .collect()
}

fn kept_by_rdp(points: &[Point], epsilon: f64) -> Vec<Point> {
    rdp(points.len(), double(epsilon), |start, end| {
        distances(points, start, end)
    })
    .into_iter()
    .map(|place| points[place])
    .collect()
}

#[test]
fn fewer_points_than_the_budget_pass_through() {
    let points = series(&[1.0, 2.0, 3.0]);
    assert_eq!(kept_by_lttb(&points, 10), points);
}

#[test]
fn the_ends_are_always_kept() {
    let points = series(&(0..1000).map(|i| f64::from(i % 7)).collect::<Vec<_>>());
    let out = kept_by_lttb(&points, 50);
    assert_eq!(out.first(), points.first());
    assert_eq!(out.last(), points.last());
    assert_eq!(out.len(), 50);
}

#[test]
fn a_one_sample_spike_survives() {
    // A flat line with one outlier, reduced to a hundred points. An averaging filter loses the
    // spike entirely.
    let mut values = vec![0.0; 5000];
    if let Some(slot) = values.get_mut(3111) {
        *slot = 42.0;
    }
    let points = series(&values);
    let out = kept_by_lttb(&points, 100);
    assert!(
        out.iter().any(|p| p.v == 42.0),
        "LTTB dropped the only feature in the series"
    );
}

#[test]
fn min_max_lttb_keeps_the_spike_too() {
    let mut values = vec![0.0; 50_000];
    if let Some(slot) = values.get_mut(31_111) {
        *slot = -17.0;
    }
    let points = series(&values);
    let out = kept_by_min_max_lttb(&points, 200, 4);
    assert!(out.iter().any(|p| p.v == -17.0));
    assert!(out.len() <= 200);
}

#[test]
fn the_output_stays_in_time_order() {
    let values: Vec<f64> = (0..2000).map(|i| (f64::from(i) / 37.0).sin()).collect();
    let points = series(&values);
    for (threshold, ratio) in [(10, 4), (137, 2), (999, 8)] {
        let out = kept_by_min_max_lttb(&points, threshold, ratio);
        assert!(
            out.windows(2).all(|w| w[0].t <= w[1].t),
            "decimation reordered the x axis at threshold {threshold}"
        );
    }
}

#[test]
fn rdp_keeps_every_point_within_its_tolerance() {
    let values: Vec<f64> = (0..500)
        .map(|i| (f64::from(i) / 50.0).sin() * 10.0)
        .collect();
    let points = series(&values);
    let out = kept_by_rdp(&points, 0.01);
    assert!(out.len() < points.len());
    assert_eq!(out.first(), points.first());
    assert_eq!(out.last(), points.last());

    // Nothing dropped is further than epsilon from the line that replaced it. Checked the
    // slow way, against the retained polyline, because that is the claim.
    let origin = points[0].t;
    for point in &points {
        let (px, py) = (point.t - origin, point.v);
        let mut best = f64::INFINITY;
        for pair in out.windows(2) {
            let (ax, ay) = (pair[0].t - origin, pair[0].v);
            let (bx, by) = (pair[1].t - origin, pair[1].v);
            if px < ax - 1e-9 || px > bx + 1e-9 {
                continue;
            }
            let norm = (bx - ax).hypot(by - ay);
            let distance = if norm == 0.0 {
                (px - ax).hypot(py - ay)
            } else {
                ((bx - ax) * (ay - py) - (ax - px) * (by - ay)).abs() / norm
            };
            best = best.min(distance);
        }
        assert!(
            best <= 0.01 + 1e-9,
            "point at {px} is {best} from the simplification"
        );
    }
}

#[test]
fn an_empty_series_decimates_to_nothing() {
    assert!(kept_by_lttb(&[], 100).is_empty());
    assert!(kept_by_rdp(&[], 1.0).is_empty());
}

#[test]
fn a_budget_below_three_gives_the_ends() {
    let points = series(&[1.0, 2.0, 3.0, 4.0, 5.0]);
    let out = kept_by_lttb(&points, 2);
    assert_eq!(out.len(), 2);
    assert_eq!(out.first(), points.first());
    assert_eq!(out.last(), points.last());
}

#[test]
fn every_bucket_gives_one_point() {
    let points = series(&(0..777).map(|i| f64::from(i * i % 101)).collect::<Vec<_>>());
    for threshold in [3, 4, 10, 99, 500, 776] {
        let places = places_by_lttb(&points, threshold);
        assert_eq!(places.len(), threshold);
        assert!(places.windows(2).all(|w| w[0] < w[1]));
    }
}

#[test]
fn areas_that_are_no_number_leave_the_first_of_a_bucket() {
    let series: Vec<usize> = (20..30).collect();
    let places = lttb(&series, 4, |_: &Vec<usize>, of: Triangles| {
        vec![double(f64::NAN); of.end - of.start]
    });
    assert_eq!(places, vec![20, 21, 25, 29]);
}

#[test]
fn a_reduction_keeps_the_extremes_of_every_bucket() {
    let values: Vec<Float64> = (0..100).map(|i| double(f64::from(i * 37 % 100))).collect();
    assert_eq!(preselect_buckets(100, 5, 4), Some(12));
    assert_eq!(preselect_buckets(100, 5, 0), Some(3));
    assert_eq!(preselect_buckets(100, 25, 4), None);
    assert_eq!(preselect_buckets(100, 2, 4), None);
    assert_eq!(preselect_buckets(100, usize::MAX, usize::MAX), None);
    let places = reduce(&values, 5, 4);
    assert_eq!(places.first(), Some(&0));
    assert_eq!(places.last(), Some(&99));
    assert!(places.windows(2).all(|w| w[0] <= w[1]));
    // 0 and 99 are the lowest and the highest value of all.
    for extreme in [0.0, 99.0] {
        assert!(places.iter().any(|place| values[*place] == double(extreme)));
    }
    assert!(places.len() <= 2 * 12 + 2);
}

#[test]
fn two_passes_measure_only_what_the_first_one_kept() {
    let points = series(&(0..1000).map(|i| f64::from(i * 7 % 83)).collect::<Vec<_>>());
    let values: Vec<Float64> = points.iter().map(|p| double(p.v)).collect();
    let reduced = reduce(&values, 20, 3);
    let out = min_max_lttb(&values, 20, 3, |places: &Vec<usize>, of: Triangles| {
        assert_eq!(places, &reduced);
        areas(&points, places, of)
    });
    assert_eq!(out.len(), 20);
    assert_eq!((out[0], out[19]), (0, 999));
    assert!(out.iter().all(|place| reduced.contains(place)));
    // Too few points to choose from: one pass is enough.
    let one_pass = kept_by_min_max_lttb(&points, 400, 3);
    assert_eq!(one_pass, kept_by_lttb(&points, 400));
}

#[test]
fn a_straight_line_is_simplified_to_its_ends() {
    let points = series(&(0..100).map(|i| f64::from(i) * 0.5).collect::<Vec<_>>());
    assert_eq!(kept_by_rdp(&points, 0.001).len(), 2);
    let short = series(&[1.0, 9.0]);
    assert_eq!(kept_by_rdp(&short, 0.5), short);
}

#[test]
fn two_passes_meet_the_budget_exactly() {
    for len in [0usize, 1, 2, 3, 10, 97, 1000] {
        let points = series(&(0..len).map(|i| (i * 7 % 83) as f64).collect::<Vec<_>>());
        let values: Vec<Float64> = points.iter().map(|p| double(p.v)).collect();
        for threshold in [3usize, 4, 9, 50, 98, 1000, 2000] {
            for ratio in [0usize, 1, 3, 8] {
                let measure = |places: &Vec<usize>, of: Triangles| areas(&points, places, of);
                let out = min_max_lttb(&values, threshold, ratio, measure);
                assert_eq!(out.len(), threshold.min(len), "{len} {threshold} {ratio}");
                assert!(out.iter().all(|place| *place < len));
                assert!(out.windows(2).all(|w| w[0] <= w[1]));
                if len > 0 {
                    assert_eq!((out[0], out[out.len() - 1]), (0, len - 1));
                }
                if threshold * ratio.max(1) >= len {
                    assert_eq!(out, places_by_lttb(&points, threshold));
                }
            }
            assert_eq!(
                kept_by_min_max_lttb(&points, threshold, 0),
                kept_by_min_max_lttb(&points, threshold, 1)
            );
            let one_pass = places_by_lttb(&points, threshold);
            assert_eq!(one_pass.len(), threshold.min(len));
            assert!(one_pass.windows(2).all(|w| w[0] < w[1]));
        }
    }
}

#[test]
fn a_tolerance_below_zero_keeps_every_point_off_the_line() {
    let points = series(&(0..20).map(|i| f64::from(i * i)).collect::<Vec<_>>());
    let measure = |start: usize, end: usize| distances(&points, start, end);
    assert!(can_simplify(points.len(), double(-1.0), measure));
    assert_eq!(kept_by_rdp(&points, -1.0), points);
}

#[test]
fn a_tolerance_below_zero_is_looked_at_only_where_the_series_is_split() {
    // The middle point is the farthest, so the stretch from one neighbour of it to the other is
    // never measured: that it is straight does not matter.
    let measure = |start: usize, end: usize| -> Vec<Float64> {
        let sizes: &[f64] = match (start, end) {
            (0, 4) => &[1.0, 3.0, 1.0],
            (0, 2) | (2, 4) => &[0.5],
            _ => &[0.0],
        };
        sizes.iter().map(|size| double(*size)).collect()
    };
    assert!(can_simplify(5, double(-1.0), measure));
    assert_eq!(rdp(5, double(-1.0), measure), vec![0, 1, 2, 3, 4]);

    let straight = |start: usize, end: usize| vec![double(0.0); end - start - 1];
    assert!(!can_simplify(5, double(-1.0), straight));
    assert!(can_simplify(2, double(-1.0), straight));
    assert!(can_simplify(5, double(0.0), straight));
    assert!(can_simplify(5, double(f64::NAN), straight));
    assert_eq!(rdp(5, double(0.0), straight), vec![0, 4]);
}

#[test]
fn no_dropped_point_is_beyond_the_tolerance_of_its_segment() {
    let values: Vec<f64> = (0..400).map(|i| (f64::from(i) / 23.0).sin() * 5.0).collect();
    let points = series(&values);
    for epsilon in [0.0, 0.01, 0.3, 2.0, 100.0] {
        let kept = rdp(points.len(), double(epsilon), |start, end| {
            distances(&points, start, end)
        });
        for pair in kept.windows(2) {
            assert!(pair[0] < pair[1]);
            for distance in distances(&points, pair[0], pair[1]) {
                assert!(f64::from_bits(distance.to_bits()) <= epsilon);
            }
        }
    }
}
