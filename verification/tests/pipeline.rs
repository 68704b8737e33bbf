//! Tests for the grid index, cluster derivation, and the session cache.

use vertex_clustering::cluster::Cluster;
use vertex_clustering::error::ClusterError;
use vertex_clustering::grid::GridIndex;
use vertex_clustering::ids::decimal_string;
use vertex_clustering::num::Dyadic;
use vertex_clustering::point::{Point2, Point3, WeightedPoint2};
use vertex_clustering::session::ClusterSession;
use vertex_clustering::simplify::{simplify, simplify_cluster};

fn dy(v: i64) -> Dyadic {
    Dyadic::from_int(v).unwrap()
}

fn p3(x: i64, y: i64, z: i64) -> Point3 {
    Point3 {
        x: dy(x),
        y: dy(y),
        z: dy(z),
    }
}

fn wp(x: i64, y: i64, w: u32) -> WeightedPoint2 {
    WeightedPoint2 {
        p: Point2 { x: dy(x), y: dy(y) },
        w,
    }
}

fn same_cluster(a: &Cluster, b: &Cluster) -> bool {
    a.id == b.id
        && a.ix == b.ix
        && a.iy == b.iy
        && a.members == b.members
        && a.bounds.bottom_left == b.bounds.bottom_left
        && a.bounds.bottom_right == b.bounds.bottom_right
        && a.bounds.top_right == b.bounds.top_right
        && a.bounds.top_left == b.bounds.top_left
}

#[test]
fn decimal_rendering_is_plain() {
    assert_eq!(decimal_string(0).as_str(), "0");
    assert_eq!(decimal_string(7).as_str(), "7");
    assert_eq!(decimal_string(120).as_str(), "120");
    assert_eq!(decimal_string(32768).as_str(), "32768");
}

#[test]
fn build_rejects_non_positive_bin_size() {
    let mut s = ClusterSession::new();
    let pts = vec![p3(0, 0, 0)];
    assert_eq!(
        s.cluster(&pts, dy(0)).unwrap_err(),
        ClusterError::InvalidParameter
    );
    assert_eq!(
        s.cluster(&pts, dy(-1)).unwrap_err(),
        ClusterError::InvalidParameter
    );
}

#[test]
fn build_rejects_oversized_extent() {
    let mut s = ClusterSession::new();
    // a far outlier with bin size one asks for more bins than the index allows
    let pts = vec![p3(0, 0, 0), p3(40000, 0, 0)];
    assert_eq!(
        s.cluster(&pts, dy(1)).unwrap_err(),
        ClusterError::InvalidParameter
    );
}

#[test]
fn empty_input_yields_no_clusters() {
    let mut s = ClusterSession::new();
    let cs = s.cluster(&Vec::new(), dy(1)).unwrap();
    assert!(cs.is_empty());
}

#[test]
fn every_point_lands_in_exactly_one_cluster() {
    let mut s = ClusterSession::new();
    let pts = vec![p3(0, 7, 0), p3(2, -1, 0), p3(4, 3, 4), p3(0, 0, 0)];
    let cs = s.cluster(&pts, dy(1)).unwrap();
    // the union of the members is the input set, projected and re-embedded
    let mut count = 0;
    for p in &pts {
        let embedded = Point3 {
            x: p.x,
            y: dy(0),
            z: p.z,
        };
        let holders: Vec<&Cluster> = cs
            .iter()
            .filter(|c| c.members.contains(&embedded))
            .collect();
        assert_eq!(holders.len(), 1);
        count += 1;
    }
    assert_eq!(count, 4);
    let total_members: usize = cs.iter().map(|c| c.members.len()).sum();
    assert_eq!(total_members, pts.len());
}

#[test]
fn duplicate_points_are_kept_with_multiplicity() {
    let mut s = ClusterSession::new();
    let pts = vec![p3(1, 2, 1), p3(1, 5, 1)];
    let cs = s.cluster(&pts, dy(4)).unwrap();
    assert_eq!(cs.len(), 1);
    // both copies land in the same bin, re-embedded to the same point
    assert_eq!(cs[0].members, vec![p3(1, 0, 1), p3(1, 0, 1)]);
}

#[test]
fn cluster_identifiers_are_deterministic() {
    let pts = vec![p3(0, 0, 0), p3(2, 0, 3), p3(4, 0, 4)];
    let mut s1 = ClusterSession::new();
    let mut s2 = ClusterSession::new();
    let cs1 = s1.cluster(&pts, dy(2)).unwrap();
    let cs2 = s2.cluster(&pts, dy(2)).unwrap();
    let ids1: Vec<String> = cs1.iter().map(|c| c.id.clone()).collect();
    let ids2: Vec<String> = cs2.iter().map(|c| c.id.clone()).collect();
    assert_eq!(ids1, ids2);
    for c in &cs1 {
        assert_eq!(c.id, format!("cluster_{}_{}", c.ix, c.iy));
    }
}

#[test]
fn clustering_twice_with_same_bin_size_is_idempotent() {
    let pts = vec![p3(0, 0, 0), p3(1, 0, 1), p3(5, 0, 2)];
    let mut s = ClusterSession::new();
    let cs1 = s.cluster(&pts, dy(2)).unwrap();
    let cs2 = s.cluster(&pts, dy(2)).unwrap();
    assert_eq!(cs1.len(), cs2.len());
    for (a, b) in cs1.iter().zip(cs2.iter()) {
        assert!(same_cluster(a, b));
    }
}

#[test]
fn changing_bin_size_invalidates_the_cache() {
    let pts = vec![p3(0, 0, 0), p3(3, 0, 0)];
    let mut s = ClusterSession::new();
    let cs1 = s.cluster(&pts, dy(1)).unwrap();
    let ids1: Vec<String> = cs1.iter().map(|c| c.id.clone()).collect();
    assert_eq!(ids1, vec!["cluster_0_0".to_string(), "cluster_3_0".to_string()]);
    // the second call reflects the new bin size, never a stale mix
    let cs2 = s.cluster(&pts, dy(2)).unwrap();
    let ids2: Vec<String> = cs2.iter().map(|c| c.id.clone()).collect();
    assert_eq!(ids2, vec!["cluster_0_0".to_string(), "cluster_1_0".to_string()]);
}

#[test]
fn simplify_cached_before_any_clustering_fails() {
    let s = ClusterSession::new();
    assert_eq!(
        s.simplify_cached().unwrap_err(),
        ClusterError::NoClustererAvailable
    );
}

#[test]
fn simplify_on_empty_index_fails() {
    let idx = GridIndex::build(Vec::new(), dy(1)).unwrap();
    assert_eq!(simplify(&idx).unwrap_err(), ClusterError::EmptyInput);
    let mut s = ClusterSession::new();
    s.cluster(&Vec::new(), dy(1)).unwrap();
    assert_eq!(s.simplify_cached().unwrap_err(), ClusterError::EmptyInput);
}

#[test]
fn members_are_reembedded_with_zero_elevation() {
    let mut s = ClusterSession::new();
    let pts = vec![p3(1, 7, 2)];
    let cs = s.cluster(&pts, dy(1)).unwrap();
    assert_eq!(cs.len(), 1);
    assert_eq!(cs[0].members, vec![p3(1, 0, 2)]);
}

#[test]
fn bounds_are_the_grid_cell_corners() {
    let mut s = ClusterSession::new();
    // one point in the cell at (1, 2) of a unit grid with origin (0, 0):
    // a second point pins the origin at the coordinate origin
    let pts = vec![p3(0, 0, 0), p3(1, 0, 2)];
    let cs = s.cluster(&pts, dy(1)).unwrap();
    assert_eq!(cs.len(), 2);
    let c = &cs[1];
    assert_eq!(c.id.as_str(), "cluster_1_2");
    let bl = &c.bounds.bottom_left;
    let tr = &c.bounds.top_right;
    assert_eq!(bl.x.num, 1);
    assert_eq!(bl.x.den, 1);
    assert_eq!(bl.z.num, 2);
    assert_eq!(bl.z.den, 1);
    assert_eq!(bl.y.num, 0);
    assert_eq!(tr.x.num, 2);
    assert_eq!(tr.z.num, 3);
}

#[test]
fn index_exposes_bin_counts_and_bins() {
    let points = vec![wp(0, 0, 1), wp(2, 0, 1), wp(2, 1, 1), wp(0, 0, 1)];
    let idx = GridIndex::build(points, dy(1)).unwrap();
    assert_eq!(idx.num_bins_x(), 3);
    assert_eq!(idx.num_bins_y(), 2);
    assert_eq!(idx.num_bins(), 3);
    let b00 = idx.get_bin(0, 0).unwrap();
    assert_eq!(b00.len(), 2);
    assert_eq!(b00[0], wp(0, 0, 1));
    assert!(idx.get_bin(1, 0).is_none());
    assert!(idx.get_bin(2, 1).is_some());
}

#[test]
fn a_far_outlier_expands_the_bin_counts() {
    let points = vec![wp(0, 0, 1), wp(100, 0, 1)];
    let idx = GridIndex::build(points, dy(1)).unwrap();
    assert_eq!(idx.num_bins_x(), 101);
    assert_eq!(idx.num_bins_y(), 1);
    assert_eq!(idx.num_bins(), 2);
}

#[test]
fn simplify_returns_weighted_centroids_and_aggregate_weights() {
    // {(0,0) weight 1, (2,0) weight 3} in one bin of a wide grid
    let points = vec![wp(0, 0, 1), wp(2, 0, 3)];
    let idx = GridIndex::build(points, dy(4)).unwrap();
    let (reps, ws) = simplify(&idx).unwrap();
    assert_eq!(reps.len(), 1);
    assert_eq!(ws, vec![4]);
    // 1.5 == 3/2 on x, zero elevation, 0 on z
    assert_eq!(2 * reps[0].x.num, 3 * reps[0].x.den);
    assert_eq!(reps[0].y.num, 0);
    assert_eq!(reps[0].z.num, 0);
}

#[test]
fn scenario_two_bins_and_exact_centroid() {
    // points (0,0,0), (0.4,0,0.4), (5,0,5) on a unit grid: two non-empty
    // bins; the bin of the first two simplifies to exactly (0.2, 0, 0.2)
    let m04 = (0.4f64 * 9007199254740992.0) as i64; // 0.4 * 2^53, exact
    let d04 = Dyadic::new(m04, 53).unwrap();
    let pts = vec![
        p3(0, 0, 0),
        Point3 {
            x: d04,
            y: dy(0),
            z: d04,
        },
        p3(5, 0, 5),
    ];
    let mut s = ClusterSession::new();
    let cs = s.cluster(&pts, dy(1)).unwrap();
    assert_eq!(cs.len(), 2);
    assert_eq!(cs[0].id.as_str(), "cluster_0_0");
    assert_eq!(cs[1].id.as_str(), "cluster_5_5");
    assert_eq!(cs[0].members.len(), 2);
    assert_eq!(cs[0].members[0], p3(0, 0, 0));
    assert_eq!(
        cs[0].members[1],
        Point3 {
            x: d04,
            y: dy(0),
            z: d04,
        }
    );
    // the cached-index path and the per-cluster path agree
    let (reps, ws) = s.simplify_cached().unwrap();
    assert_eq!(reps.len(), 2);
    assert_eq!(ws, vec![2, 1]);
    let rep = simplify_cluster(&cs[0]).unwrap();
    assert_eq!(rep.x, reps[0].x);
    assert_eq!(rep.z, reps[0].z);
    // the centroid is exactly the double 0.2: its mantissa at scale 2^-54
    let m02 = (0.2f64 * 18014398509481984.0) as i64; // 0.2 * 2^54, exact
    assert_eq!(m02, m04);
    assert_eq!(rep.x.num, m04 as i128);
    assert_eq!(rep.x.den, 1i128 << 54);
    assert_eq!(rep.y.num, 0);
    assert_eq!(rep.z.num, m04 as i128);
}

#[test]
fn simplify_cluster_rejects_an_empty_cluster() {
    let mut s = ClusterSession::new();
    let pts = vec![p3(0, 0, 0)];
    let cs = s.cluster(&pts, dy(1)).unwrap();
    let mut emptied = Cluster {
        id: cs[0].id.clone(),
        ix: cs[0].ix,
        iy: cs[0].iy,
        bounds: vertex_clustering::cluster::ClusterBounds {
            bottom_left: cs[0].bounds.bottom_left,
            bottom_right: cs[0].bounds.bottom_right,
            top_right: cs[0].bounds.top_right,
            top_left: cs[0].bounds.top_left,
        },
        members: Vec::new(),
    };
    assert_eq!(
        simplify_cluster(&emptied).unwrap_err(),
        ClusterError::EmptyInput
    );
    emptied.members.push(p3(4, 0, 4));
    let rep = simplify_cluster(&emptied).unwrap();
    assert_eq!(rep.x.num, 4 * rep.x.den);
}
