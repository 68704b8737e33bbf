//! The clustering session: a cache around the grid index.
//!
//! A session is either *empty* (no index yet) or *populated* (it holds the
//! last index and the bin size it was built with). A clustering request
//! rebuilds the index exactly when no index exists or the requested bin
//! size differs in value from the cached one; an unchanged bin size is a
//! pure cache hit that reuses the index without rebuilding. Simplification
//! against the cache is valid only in the populated state.
//!
//! The session is one piece of mutable state; a caller that shares it
//! across threads must serialize whole calls on it with a mutual-exclusion
//! lock.

use crate::cluster::{build_clusters, clusters_match_index, Cluster};
use crate::error::ClusterError;
use crate::grid::{points_wf, spec_extent_ok, GridIndex, MAX_WEIGHT_SUM};
use crate::num::Dyadic;
use crate::point::{Point3, RatioPoint3, WeightedPoint2};
use crate::simplify::{lemma_unit_weight_sum, simplify, simplify_result_ok};
use vstd::prelude::*;

verus! {

/// The projection of spatial input points onto the clustering plane, each
/// with unit weight.
pub open spec fn spec_project_all(points: Seq<Point3>) -> Seq<WeightedPoint2> {
    points.map_values(|q: Point3| WeightedPoint2 { p: q.spec_project(), w: 1u32 })
}

/// Process-lifetime clustering state: the current index, if any, and the
/// bin size it was built with. A fresh session is empty with bin size one.
pub struct ClusterSession {
    pub index: Option<GridIndex>,
    pub bin_size: Dyadic,
}

impl ClusterSession {
    /// The session invariant: a populated session holds a well-formed
    /// index built with the remembered bin size.
    pub open spec fn wf(self) -> bool {
        &&& self.bin_size.wf()
        &&& self.index matches Some(idx) ==> idx.wf() && idx.bin_size == self.bin_size
    }

    /// The request reuses the cached index: one exists and the requested
    /// bin size equals the cached one in value.
    pub open spec fn spec_cache_hit(self, g: Dyadic) -> bool {
        self.index is Some && self.bin_size.spec_eq_val(g)
    }

    /// What a successful clustering call guarantees: on a cache hit the
    /// state is untouched; otherwise the state holds a fresh index over the
    /// given points and bin size. Either way the result is exactly the
    /// current index's cluster sequence.
    pub open spec fn spec_cluster_ok(
        old_s: ClusterSession,
        new_s: ClusterSession,
        points: Seq<Point3>,
        g: Dyadic,
        cs: Seq<Cluster>,
    ) -> bool {
        &&& new_s.index is Some
        &&& clusters_match_index(new_s.index->0, cs)
        &&& if old_s.spec_cache_hit(g) {
            new_s == old_s
        } else {
            &&& new_s.index->0.points@ == spec_project_all(points)
            &&& new_s.index->0.bin_size == g
            &&& new_s.bin_size == g
        }
    }

    /// A fresh, empty session with the default bin size of one.
    pub fn new() -> (s: ClusterSession)
        ensures
            s.wf(),
            s.index is None,
            s.bin_size == (Dyadic { num: 1i64, exp: 0u32 }),
    {
        ClusterSession { index: None, bin_size: Dyadic::one() }
    }

    /// Clusters the given points. When the bin size is unchanged in value
    /// and an index exists, that index is reused as it stands — a pure
    /// cache hit, without re-reading the supplied points. Otherwise the
    /// points are projected, a fresh index is built and cached. Fails with
    /// `InvalidParameter` exactly
    /// when a rebuild is needed and the bin size is not strictly positive
    /// or the grid would exceed the index's machine limits; a failed call
    /// leaves the session unchanged.
    pub fn cluster(&mut self, points: &Vec<Point3>, bin_size: Dyadic) -> (r: Result<
        Vec<Cluster>,
        ClusterError,
    >)
        requires
            old(self).wf(),
            bin_size.wf(),
            forall|i: int| 0 <= i < points@.len() ==> (#[trigger] points@[i]).wf(),
            points@.len() <= MAX_WEIGHT_SUM,
        ensures
            final(self).wf(),
            match r {
                Ok(cs) => ClusterSession::spec_cluster_ok(
                    *old(self),
                    *final(self),
                    points@,
                    bin_size,
                    cs@,
                ),
                Err(e) => {
                    &&& *final(self) == *old(self)
                    &&& e == ClusterError::InvalidParameter
                    &&& !old(self).spec_cache_hit(bin_size)
                    &&& (bin_size.num <= 0 || !spec_extent_ok(
                        spec_project_all(points@),
                        bin_size,
                    ))
                },
            },
    {
        if self.index.is_some() && self.bin_size.eq_val(&bin_size) {
            let idx = self.index.as_ref().unwrap();
            let cs = build_clusters(idx);
            return Ok(cs);
        }
        let wpoints = project_all(points);
        proof {
            lemma_unit_weight_sum(wpoints@);
        }
        match GridIndex::build(wpoints, bin_size) {
            Ok(idx) => {
                let cs = build_clusters(&idx);
                self.index = Some(idx);
                self.bin_size = bin_size;
                Ok(cs)
            },
            Err(e) => Err(e),
        }
    }

    /// Simplifies against the last computed clustering. Fails with
    /// `NoClustererAvailable` exactly in the empty state (no clustering
    /// call has populated the session), and with `EmptyInput` exactly when
    /// the cached index holds no points.
    pub fn simplify_cached(&self) -> (r: Result<(Vec<RatioPoint3>, Vec<u64>), ClusterError>)
        requires
            self.wf(),
        ensures
            match r {
                Ok(pair) => {
                    &&& self.index is Some
                    &&& self.index->0.points@.len() > 0
                    &&& simplify_result_ok(self.index->0, pair.0@, pair.1@)
                },
                Err(e) => {
                    ||| self.index is None && e == ClusterError::NoClustererAvailable
                    ||| self.index is Some && self.index->0.points@.len() == 0 && e
                        == ClusterError::EmptyInput
                },
            },
    {
        match &self.index {
            None => Err(ClusterError::NoClustererAvailable),
            Some(idx) => simplify(idx),
        }
    }
}

/// Projects spatial points onto the clustering plane with unit weights.
#[verifier::loop_isolation(false)]
fn project_all(points: &Vec<Point3>) -> (r: Vec<WeightedPoint2>)
    requires
        forall|i: int| 0 <= i < points@.len() ==> (#[trigger] points@[i]).wf(),
    ensures
        r@ == spec_project_all(points@),
        points_wf(r@),
        r@.len() == points@.len(),
{
    let mut r: Vec<WeightedPoint2> = Vec::new();
    let mut i: usize = 0;
    while i < points.len()
        invariant
            0 <= i <= points@.len(),
            r@.len() == i,
            forall|j: int|
                0 <= j < i ==> r@[j] == (WeightedPoint2 {
                    p: (#[trigger] points@[j]).spec_project(),
                    w: 1u32,
                }),
        decreases points@.len() - i,
    {
        let q = points[i];
        r.push(WeightedPoint2 { p: q.project(), w: 1 });
        i = i + 1;
    }
    proof {
        assert(r@ =~= spec_project_all(points@));
        assert forall|i: int| 0 <= i < r@.len() implies (#[trigger] r@[i]).wf() by {
            assert(points@[i].wf());
        }
    }
    r
}

/// A bin size that differs in value from the cached one is never a cache
/// hit: the next clustering call rebuilds the index over the given points
/// with the new bin size, so its bins reflect the new size and never a
/// stale mix.
pub proof fn lemma_bin_size_change_invalidates(
    s1: ClusterSession,
    s2: ClusterSession,
    points: Seq<Point3>,
    g2: Dyadic,
    cs: Seq<Cluster>,
)
    requires
        !s1.bin_size.spec_eq_val(g2),
        ClusterSession::spec_cluster_ok(s1, s2, points, g2, cs),
    ensures
        !s1.spec_cache_hit(g2),
        s2.index is Some,
        s2.index->0.points@ == spec_project_all(points),
        s2.index->0.bin_size == g2,
        clusters_match_index(s2.index->0, cs),
{
}

/// Clustering twice with the same bin size is idempotent: the second call
/// is a pure cache hit, leaves the session untouched, and yields the
/// observably identical cluster sequence.
pub proof fn lemma_cluster_idempotent(
    s1: ClusterSession,
    s2: ClusterSession,
    s3: ClusterSession,
    points: Seq<Point3>,
    g: Dyadic,
    cs1: Seq<Cluster>,
    cs2: Seq<Cluster>,
)
    requires
        s2.wf(),
        ClusterSession::spec_cluster_ok(s1, s2, points, g, cs1),
        ClusterSession::spec_cluster_ok(s2, s3, points, g, cs2),
    ensures
        s2.spec_cache_hit(g),
        s3 == s2,
        crate::cluster::clusters_obs_eq(cs1, cs2),
{
    vstd::arithmetic::power2::lemma_pow2_pos(g.exp as nat);
    if !s1.spec_cache_hit(g) {
        assert(s2.bin_size == g);
    }
    assert(s2.bin_size.spec_eq_val(g));
    assert(s2.spec_cache_hit(g));
    crate::cluster::lemma_clusters_deterministic(s2.index->0, cs1, cs2);
}

} // verus!
