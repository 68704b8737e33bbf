//! Tests for the weighted-centroid reduction.

use vertex_clustering::error::ClusterError;
use vertex_clustering::num::Dyadic;
use vertex_clustering::point::{Point2, WeightedPoint2};
use vertex_clustering::simplify::reduce;

fn dy(v: i64) -> Dyadic {
    Dyadic::from_int(v).unwrap()
}

fn wp(x: i64, y: i64, w: u32) -> WeightedPoint2 {
    WeightedPoint2 {
        p: Point2 { x: dy(x), y: dy(y) },
        w,
    }
}

#[test]
fn reduce_single_point_returns_it_unchanged() {
    let items = vec![wp(2, 0, 1)];
    let r = reduce(&items).unwrap();
    // exact value 2 on x, 0 on y
    assert_eq!(r.x.num, 2);
    assert_eq!(r.x.den, 1);
    assert_eq!(r.y.num, 0);
    assert_eq!(r.y.den, 1);
}

#[test]
fn reduce_identical_points_returns_the_point_for_any_count() {
    for k in 1..7 {
        let items: Vec<WeightedPoint2> = (0..k).map(|_| wp(2, -3, 1)).collect();
        let r = reduce(&items).unwrap();
        // value equality by cross-multiplication: num/den == 2 and -3
        assert_eq!(r.x.num, 2 * r.x.den);
        assert_eq!(r.y.num, -3 * r.y.den);
    }
}

#[test]
fn reduce_identical_points_ignores_weights() {
    let items = vec![wp(2, 5, 1), wp(2, 5, 7), wp(2, 5, 2)];
    let r = reduce(&items).unwrap();
    assert_eq!(r.x.num, 2 * r.x.den);
    assert_eq!(r.y.num, 5 * r.y.den);
}

#[test]
fn reduce_unweighted_line_returns_middle() {
    // {(0,0), (2,0), (4,0)} unweighted reduces to (2, 0)
    let items = vec![wp(0, 0, 1), wp(2, 0, 1), wp(4, 0, 1)];
    let r = reduce(&items).unwrap();
    assert_eq!(r.x.num, 6);
    assert_eq!(r.x.den, 3);
    assert_eq!(r.x.num, 2 * r.x.den);
    assert_eq!(r.y.num, 0);
}

#[test]
fn reduce_weighted_pair_returns_weighted_mean() {
    // {(0,0) weight 1, (2,0) weight 3} reduces to (1.5, 0)
    let items = vec![wp(0, 0, 1), wp(2, 0, 3)];
    let r = reduce(&items).unwrap();
    assert_eq!(r.x.num, 6);
    assert_eq!(r.x.den, 4);
    // 6/4 == 3/2
    assert_eq!(2 * r.x.num, 3 * r.x.den);
    assert_eq!(r.y.num, 0);
}

#[test]
fn reduce_empty_input_fails() {
    let items: Vec<WeightedPoint2> = Vec::new();
    assert_eq!(reduce(&items).unwrap_err(), ClusterError::EmptyInput);
}

#[test]
fn reduce_mixed_scales_is_exact() {
    // 0.5 and 1.5 average to exactly 1
    let half = Dyadic::new(1, 1).unwrap();
    let three_halves = Dyadic::new(3, 1).unwrap();
    let items = vec![
        WeightedPoint2 {
            p: Point2 { x: half, y: dy(0) },
            w: 1,
        },
        WeightedPoint2 {
            p: Point2 {
                x: three_halves,
                y: dy(0),
            },
            w: 1,
        },
    ];
    let r = reduce(&items).unwrap();
    // (1 + 3) / (2 * 2^1) == 4/4 == 1
    assert_eq!(r.x.num, 4);
    assert_eq!(r.x.den, 4);
    assert_eq!(r.x.num, 1 * r.x.den);
}

#[test]
fn dyadic_constructor_accepts_exactly_the_bounded_range() {
    assert!(Dyadic::new(1 << 40, 0).is_some());
    assert!(Dyadic::new(-(1 << 40), 0).is_some());
    assert!(Dyadic::new((1 << 40) + 1, 0).is_none());
    assert!(Dyadic::new(1, 62).is_some());
    assert!(Dyadic::new(1, 63).is_none());
    // a double's full mantissa at scale 2^-53 is representable
    assert!(Dyadic::new(3602879701896397, 53).is_some());
}
