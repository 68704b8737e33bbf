//! Cluster derivation.
//!
//! `build_clusters` turns a grid index into one `Cluster` per non-empty
//! bin, visiting the bin coordinates in row-major order (`x` outer, `y`
//! inner) and skipping cells absent from the index. Each cluster carries a
//! deterministic identifier derived from its bin coordinates, its members
//! re-embedded into space with zero elevation, and the exact corners of its
//! grid cell — the canonical bounds convention, since the cells tile the
//! clustered region completely.

use crate::grid::{bin_points, cell_seq, GridIndex, MAX_BINS_PER_AXIS, MAX_WEIGHT_SUM};
use crate::ids::{cluster_id, spec_cluster_id};
use crate::num::{
    lemma_mul_magnitude, lemma_pow2_within_i128, pow2_i128, Dyadic, Ratio, COORD_MAG_EXP,
};
use crate::point::{Point3, RatioPoint3, WeightedPoint2};
use vstd::arithmetic::power2::{lemma2_to64, lemma_pow2_adds, lemma_pow2_pos, pow2};
use vstd::prelude::*;

verus! {

/// The four corners of a cluster's grid cell, each with zero elevation.
#[derive(Clone, Debug)]
pub struct ClusterBounds {
    pub bottom_left: RatioPoint3,
    pub bottom_right: RatioPoint3,
    pub top_right: RatioPoint3,
    pub top_left: RatioPoint3,
}

/// One non-empty bin of the grid: a stable identifier, the cell's exact
/// corner polygon, and the member points re-embedded with zero elevation,
/// in input order. Created fresh on every clustering request and not
/// mutated afterwards.
#[derive(Clone, Debug)]
pub struct Cluster {
    /// `cluster_{ix}_{iy}`: a deterministic function of the bin coordinates.
    pub id: String,
    /// The bin coordinates this cluster represents.
    pub ix: usize,
    pub iy: usize,
    /// The grid-cell corner polygon.
    pub bounds: ClusterBounds,
    /// The member points, re-embedded into space with zero elevation.
    pub members: Vec<Point3>,
}

/// The numerator of the exact corner coordinate `o + k * g`, scaled by
/// `2^emax(o.exp, g.exp)`.
pub open spec fn corner_num(o: Dyadic, g: Dyadic, k: int) -> int {
    let m = crate::grid::emax(o.exp as nat, g.exp as nat);
    o.num * pow2((m - o.exp) as nat) + k * g.num * pow2((m - g.exp) as nat)
}

/// The denominator of the exact corner coordinate: `2^emax(o.exp, g.exp)`.
pub open spec fn corner_den(o: Dyadic, g: Dyadic) -> int {
    pow2(crate::grid::emax(o.exp as nat, g.exp as nat)) as int
}

/// `r` is exactly the corner coordinate `o + k * g`.
pub open spec fn is_corner(r: Ratio, o: Dyadic, g: Dyadic, k: int) -> bool {
    r.num == corner_num(o, g, k) && r.den == corner_den(o, g)
}

/// `r` is exactly zero.
pub open spec fn is_zero_ratio(r: Ratio) -> bool {
    r == (Ratio { num: 0i128, den: 1i128 })
}

/// The corner point at bin offsets `(kx, ky)` from the origin, with zero
/// elevation.
pub open spec fn is_cell_point(
    p: RatioPoint3,
    ox: Dyadic,
    oy: Dyadic,
    g: Dyadic,
    kx: int,
    ky: int,
) -> bool {
    is_corner(p.x, ox, g, kx) && is_zero_ratio(p.y) && is_corner(p.z, oy, g, ky)
}

impl Cluster {
    /// This cluster is exactly the one derived for cell `(cx, cy)` of the
    /// grid over points `s` with origin `(ox, oy)` and bin size `g`.
    pub open spec fn matches(
        self,
        s: Seq<WeightedPoint2>,
        ox: Dyadic,
        oy: Dyadic,
        g: Dyadic,
        cx: int,
        cy: int,
    ) -> bool {
        &&& self.ix == cx && self.iy == cy
        &&& self.id@ == spec_cluster_id(cx as nat, cy as nat)
        &&& self.members@ == bin_points(s, ox, oy, g, cx, cy).map_values(
            |wp: WeightedPoint2| wp.p.spec_embed(),
        )
        &&& is_cell_point(self.bounds.bottom_left, ox, oy, g, cx, cy)
        &&& is_cell_point(self.bounds.bottom_right, ox, oy, g, cx + 1, cy)
        &&& is_cell_point(self.bounds.top_right, ox, oy, g, cx + 1, cy + 1)
        &&& is_cell_point(self.bounds.top_left, ox, oy, g, cx, cy + 1)
    }

    /// Well-formedness: the members are well-formed embedded points (zero
    /// elevation) and few enough that unweighted simplification is exact.
    pub open spec fn wf(self) -> bool {
        &&& forall|i: int|
            0 <= i < self.members@.len() ==> (#[trigger] self.members@[i]).wf()
                && self.members@[i].y == (Dyadic { num: 0i64, exp: 0u32 })
        &&& self.members@.len() <= MAX_WEIGHT_SUM
    }
}

/// `cs` is exactly the cluster sequence of the index: one cluster per
/// occupied cell, in row-major cell order.
pub open spec fn clusters_match_index(idx: GridIndex, cs: Seq<Cluster>) -> bool {
    &&& cs.len() == idx.spec_occupied().len()
    &&& forall|k: int|
        0 <= k < cs.len() ==> (#[trigger] cs[k]).matches(
            idx.points@,
            idx.origin_x,
            idx.origin_y,
            idx.bin_size,
            idx.spec_occupied()[k].0,
            idx.spec_occupied()[k].1,
        ) && cs[k].wf()
}

/// Computes the exact corner coordinate `o + k * g`.
fn corner_coord(o: &Dyadic, g: &Dyadic, k: usize) -> (r: Ratio)
    requires
        o.wf(),
        g.wf(),
        k <= MAX_BINS_PER_AXIS + 1,
    ensures
        is_corner(r, *o, *g, k as int),
        r.wf(),
{
    let m: u32 = if o.exp >= g.exp {
        o.exp
    } else {
        g.exp
    };
    let ghost mn = crate::grid::emax(o.exp as nat, g.exp as nat);
    proof {
        lemma_pow2_pos(mn);
        lemma_pow2_adds((COORD_MAG_EXP + o.exp) as nat, (mn - o.exp) as nat);
        lemma_pow2_adds((COORD_MAG_EXP + g.exp) as nat, (mn - g.exp) as nat);
        lemma_pow2_adds((COORD_MAG_EXP + 16) as nat, mn);
        lemma_pow2_within_i128((COORD_MAG_EXP + mn) as nat);
        lemma_pow2_within_i128((COORD_MAG_EXP + 16 + mn) as nat);
        lemma_pow2_within_i128((COORD_MAG_EXP + 17 + mn) as nat);
        lemma_pow2_adds((COORD_MAG_EXP + 16 + mn) as nat, 1);
        lemma2_to64();
        lemma_mul_magnitude(
            o.num as int,
            pow2((mn - o.exp) as nat) as int,
            pow2((COORD_MAG_EXP + o.exp) as nat) as int,
            pow2((mn - o.exp) as nat) as int,
        );
    }
    let a = (o.num as i128) * pow2_i128(m - o.exp);
    proof {
        assert(k <= 0x10000);
        assert(pow2((COORD_MAG_EXP + g.exp) as nat) * 0x10000 == pow2(
            (COORD_MAG_EXP + 16 + g.exp) as nat,
        )) by {
            lemma2_to64();
            lemma_pow2_adds((COORD_MAG_EXP + g.exp) as nat, 16);
        }
        lemma_pow2_within_i128((COORD_MAG_EXP + 16 + g.exp) as nat);
        lemma_mul_magnitude(
            g.num as int,
            k as int,
            pow2((COORD_MAG_EXP + g.exp) as nat) as int,
            0x10000,
        );
        assert(g.num as int * k as int == k as int * g.num as int) by (nonlinear_arith);
    }
    let b = (k as i128) * (g.num as i128);
    proof {
        lemma_pow2_adds((COORD_MAG_EXP + 16 + g.exp) as nat, (mn - g.exp) as nat);
        lemma_mul_magnitude(
            b as int,
            pow2((mn - g.exp) as nat) as int,
            pow2((COORD_MAG_EXP + 16 + g.exp) as nat) as int,
            pow2((mn - g.exp) as nat) as int,
        );
    }
    let c = b * pow2_i128(m - g.exp);
    let num = a + c;
    let den = pow2_i128(m);
    Ratio { num, den }
}

/// Builds the corner point at bin offsets `(kx, ky)`, with zero elevation.
fn corner_point(
    ox: &Dyadic,
    oy: &Dyadic,
    g: &Dyadic,
    kx: usize,
    ky: usize,
) -> (r: RatioPoint3)
    requires
        ox.wf(),
        oy.wf(),
        g.wf(),
        kx <= MAX_BINS_PER_AXIS + 1,
        ky <= MAX_BINS_PER_AXIS + 1,
    ensures
        is_cell_point(r, *ox, *oy, *g, kx as int, ky as int),
        r.wf(),
{
    RatioPoint3 {
        x: corner_coord(ox, g, kx),
        y: Ratio::zero(),
        z: corner_coord(oy, g, ky),
    }
}

/// Re-embeds a bin's members into space with zero elevation, in order.
#[verifier::loop_isolation(false)]
fn embed_members(items: &Vec<WeightedPoint2>) -> (r: Vec<Point3>)
    ensures
        r@ == items@.map_values(|wp: WeightedPoint2| wp.p.spec_embed()),
{
    let mut r: Vec<Point3> = Vec::new();
    let mut i: usize = 0;
    while i < items.len()
        invariant
            0 <= i <= items@.len(),
            r@.len() == i,
            forall|j: int| 0 <= j < i ==> r@[j] == (#[trigger] items@[j]).p.spec_embed(),
        decreases items@.len() - i,
    {
        r.push(items[i].p.embed());
        i = i + 1;
    }
    proof {
        assert(r@ =~= items@.map_values(|wp: WeightedPoint2| wp.p.spec_embed()));
    }
    r
}

/// Derives the cluster sequence of an index: one cluster per occupied cell,
/// in row-major cell order. An index with no occupied bin yields an empty
/// sequence; the function never fails.
#[verifier::loop_isolation(false)]
pub fn build_clusters(index: &GridIndex) -> (cs: Vec<Cluster>)
    requires
        index.wf(),
    ensures
        clusters_match_index(*index, cs@),
{
    let nbx = index.nbx;
    let nby = index.nby;
    proof {
        assert(nbx * nby <= MAX_BINS_PER_AXIS * MAX_BINS_PER_AXIS) by (nonlinear_arith)
            requires
                0 <= nbx <= MAX_BINS_PER_AXIS,
                0 <= nby <= MAX_BINS_PER_AXIS,
        ;
    }
    let total = nbx * nby;
    let ghost cells = cell_seq(nbx as int, nby as int);
    let ghost occ_pred = |c: (int, int)| bin_points(
        index.points@,
        index.origin_x,
        index.origin_y,
        index.bin_size,
        c.0,
        c.1,
    ).len() > 0;
    let mut cs: Vec<Cluster> = Vec::new();
    let mut t: usize = 0;
    while t < total
        invariant
            0 <= t <= total,
            cs@.len() == cells.take(t as int).filter(occ_pred).len(),
            forall|k: int|
                0 <= k < cs@.len() ==> (#[trigger] cs@[k]).matches(
                    index.points@,
                    index.origin_x,
                    index.origin_y,
                    index.bin_size,
                    cells.take(t as int).filter(occ_pred)[k].0,
                    cells.take(t as int).filter(occ_pred)[k].1,
                ) && cs@[k].wf(),
        decreases total - t,
    {
        proof {
            assert(nby > 0) by (nonlinear_arith)
                requires
                    total == nbx * nby,
                    t < total,
                    nby >= 0,
            ;
        }
        let ix = t / nby;
        let iy = t % nby;
        proof {
            crate::grid::lemma_cell_seq_facts(nbx as int, nby as int);
            assert(cells[t as int] == (ix as int, iy as int));
            assert(cells.contains(cells[t as int]));
            assert(ix < nbx && iy < nby);
            assert(cells.take(t as int + 1).drop_last() =~= cells.take(t as int));
            assert(cells.take(t as int + 1).last() == cells[t as int]);
            crate::grid::lemma_filter_push(cells.take(t as int), occ_pred, cells[t as int]);
            assert(cells.take(t as int).push(cells[t as int]) =~= cells.take(t as int + 1));
        }
        match index.get_bin(ix, iy) {
            Some(items) => {
                proof {
                    lemma_members_wf(
                        index.points@,
                        index.origin_x,
                        index.origin_y,
                        index.bin_size,
                        ix as int,
                        iy as int,
                    );
                    vstd::arithmetic::div_mod::lemma_mod_bound(t as int, nby as int);
                }
                let id = cluster_id(ix as u64, iy as u64);
                let bounds = ClusterBounds {
                    bottom_left: corner_point(&index.origin_x, &index.origin_y, &index.bin_size, ix, iy),
                    bottom_right: corner_point(
                        &index.origin_x,
                        &index.origin_y,
                        &index.bin_size,
                        ix + 1,
                        iy,
                    ),
                    top_right: corner_point(
                        &index.origin_x,
                        &index.origin_y,
                        &index.bin_size,
                        ix + 1,
                        iy + 1,
                    ),
                    top_left: corner_point(
                        &index.origin_x,
                        &index.origin_y,
                        &index.bin_size,
                        ix,
                        iy + 1,
                    ),
                };
                let members = embed_members(items);
                cs.push(Cluster { id, ix, iy, bounds, members });
            },
            None => {},
        }
        t = t + 1;
    }
    proof {
        assert(cells.take(total as int) =~= cells);
        assert(index.spec_occupied() == cells.take(total as int).filter(occ_pred));
    }
    cs
}

/// Observable equality of two clusters: identical identifier text, bin
/// coordinates, bounds, and member sequence.
pub open spec fn cluster_obs_eq(a: Cluster, b: Cluster) -> bool {
    &&& a.id@ == b.id@
    &&& a.ix == b.ix && a.iy == b.iy
    &&& a.bounds.bottom_left == b.bounds.bottom_left
    &&& a.bounds.bottom_right == b.bounds.bottom_right
    &&& a.bounds.top_right == b.bounds.top_right
    &&& a.bounds.top_left == b.bounds.top_left
    &&& a.members@ == b.members@
}

/// Observable equality of two cluster sequences, element by element.
pub open spec fn clusters_obs_eq(cs1: Seq<Cluster>, cs2: Seq<Cluster>) -> bool {
    &&& cs1.len() == cs2.len()
    &&& forall|k: int| 0 <= k < cs1.len() ==> cluster_obs_eq(#[trigger] cs1[k], cs2[k])
}

/// Cluster derivation is a function of the input points and the bin size:
/// two cluster sequences derived over indexes built from the same points
/// and bin size agree observably — in particular, their identifier sets
/// coincide, since each identifier is determined by its bin coordinates.
pub proof fn lemma_same_input_same_clusters(
    idx1: GridIndex,
    idx2: GridIndex,
    cs1: Seq<Cluster>,
    cs2: Seq<Cluster>,
)
    requires
        idx1.wf(),
        idx2.wf(),
        idx1.points@ == idx2.points@,
        idx1.bin_size == idx2.bin_size,
        clusters_match_index(idx1, cs1),
        clusters_match_index(idx2, cs2),
    ensures
        clusters_obs_eq(cs1, cs2),
{
    assert(idx1.origin_x == idx2.origin_x);
    assert(idx1.origin_y == idx2.origin_y);
    assert(idx1.nbx == idx2.nbx && idx1.nby == idx2.nby);
    assert(idx1.spec_occupied() == idx2.spec_occupied());
    assert forall|k: int| 0 <= k < cs1.len() implies cluster_obs_eq(
        #[trigger] cs1[k],
        cs2[k],
    ) by {
        assert(cs1[k].matches(
            idx1.points@,
            idx1.origin_x,
            idx1.origin_y,
            idx1.bin_size,
            idx1.spec_occupied()[k].0,
            idx1.spec_occupied()[k].1,
        ));
        assert(cs2[k].matches(
            idx1.points@,
            idx1.origin_x,
            idx1.origin_y,
            idx1.bin_size,
            idx1.spec_occupied()[k].0,
            idx1.spec_occupied()[k].1,
        ));
    }
}

/// Deriving the clusters of one index twice yields observably identical
/// sequences.
pub proof fn lemma_clusters_deterministic(idx: GridIndex, cs1: Seq<Cluster>, cs2: Seq<Cluster>)
    requires
        idx.wf(),
        clusters_match_index(idx, cs1),
        clusters_match_index(idx, cs2),
    ensures
        clusters_obs_eq(cs1, cs2),
{
    lemma_same_input_same_clusters(idx, idx, cs1, cs2);
}

/// The total number of member points across a cluster sequence.
pub open spec fn member_count(cs: Seq<Cluster>) -> int
    decreases cs.len(),
{
    if cs.len() == 0 {
        0
    } else {
        member_count(cs.drop_last()) + cs.last().members@.len()
    }
}

/// Cluster members of listed cells are as numerous as the gathered bins.
proof fn lemma_member_count_eq(
    cs: Seq<Cluster>,
    cells: Seq<(int, int)>,
    s: Seq<WeightedPoint2>,
    ox: Dyadic,
    oy: Dyadic,
    g: Dyadic,
)
    requires
        cs.len() == cells.len(),
        forall|k: int|
            0 <= k < cs.len() ==> (#[trigger] cs[k]).members@.len() == bin_points(
                s,
                ox,
                oy,
                g,
                cells[k].0,
                cells[k].1,
            ).len(),
    ensures
        member_count(cs) == crate::grid::gathered(cells, s, ox, oy, g).len(),
    decreases cs.len(),
{
    if cs.len() > 0 {
        assert(forall|k: int|
            0 <= k < cs.drop_last().len() ==> (#[trigger] cs.drop_last()[k]).members@.len()
                == bin_points(
                s,
                ox,
                oy,
                g,
                cells.drop_last()[k].0,
                cells.drop_last()[k].1,
            ).len());
        lemma_member_count_eq(cs.drop_last(), cells.drop_last(), s, ox, oy, g);
    }
}

/// No points are lost and none duplicated: the clusters' member counts add
/// up to exactly the number of input points.
pub proof fn lemma_clusters_cover_all_points(idx: GridIndex, cs: Seq<Cluster>)
    requires
        idx.wf(),
        clusters_match_index(idx, cs),
    ensures
        member_count(cs) == idx.points@.len(),
{
    broadcast use vstd::seq_lib::group_to_multiset_ensures;

    let occ = idx.spec_occupied();
    assert forall|k: int| 0 <= k < cs.len() implies (#[trigger] cs[k]).members@.len()
        == bin_points(
        idx.points@,
        idx.origin_x,
        idx.origin_y,
        idx.bin_size,
        occ[k].0,
        occ[k].1,
    ).len() by {
        assert(cs[k].matches(
            idx.points@,
            idx.origin_x,
            idx.origin_y,
            idx.bin_size,
            occ[k].0,
            occ[k].1,
        ));
    }
    lemma_member_count_eq(cs, occ, idx.points@, idx.origin_x, idx.origin_y, idx.bin_size);
    crate::grid::lemma_index_partitions_points(idx);
    let gathered = crate::grid::gathered(
        occ,
        idx.points@,
        idx.origin_x,
        idx.origin_y,
        idx.bin_size,
    );
    assert(gathered.to_multiset().len() == idx.points@.to_multiset().len());
}

/// Every input point appears in exactly one emitted cluster: the cluster
/// of its own cell holds its embedding, and no cluster of another cell
/// does.
pub proof fn lemma_each_point_in_one_cluster(idx: GridIndex, cs: Seq<Cluster>, j: int)
    requires
        idx.wf(),
        clusters_match_index(idx, cs),
        0 <= j < idx.points@.len(),
    ensures
        ({
            let c = crate::grid::spec_cell(
                idx.points@[j],
                idx.origin_x,
                idx.origin_y,
                idx.bin_size,
            );
            let v = idx.points@[j].p.spec_embed();
            &&& exists|k: int|
                0 <= k < cs.len() && (#[trigger] cs[k]).ix == c.0 && cs[k].iy == c.1
                    && cs[k].members@.contains(v)
            &&& forall|k: int|
                0 <= k < cs.len() && !((#[trigger] cs[k]).ix == c.0 && cs[k].iy == c.1)
                    ==> !cs[k].members@.contains(v)
        }),
{
    let s = idx.points@;
    let c = crate::grid::spec_cell(s[j], idx.origin_x, idx.origin_y, idx.bin_size);
    let v = s[j].p.spec_embed();
    let embed = |wp: WeightedPoint2| wp.p.spec_embed();
    crate::grid::lemma_point_cell_occupied(idx, j);
    let occ = idx.spec_occupied();
    let t = choose|t: int| 0 <= t < occ.len() && occ[t] == c;
    // the cluster at position t carries the point's cell and its embedding
    assert(cs[t].matches(s, idx.origin_x, idx.origin_y, idx.bin_size, c.0, c.1));
    let bin = idx.spec_bin_points(c.0, c.1);
    let i = choose|i: int| 0 <= i < bin.len() && bin[i] == s[j];
    assert(cs[t].members@[i] == embed(bin[i]));
    assert(cs[t].members@.contains(v));
    // and no cluster of another cell does
    assert forall|k: int|
        0 <= k < cs.len() && !((#[trigger] cs[k]).ix == c.0 && cs[k].iy == c.1) implies !cs[k].members@.contains(v) by {
        if cs[k].members@.contains(v) {
            let ck = occ[k];
            let predk = |pt: WeightedPoint2| crate::grid::spec_cell(
                pt,
                idx.origin_x,
                idx.origin_y,
                idx.bin_size,
            ) == (ck.0, ck.1);
            let bink = idx.spec_bin_points(ck.0, ck.1);
            assert(bink == s.filter(predk));
            let i2 = choose|i2: int| 0 <= i2 < cs[k].members@.len() && cs[k].members@[i2] == v;
            assert(cs[k].members@[i2] == embed(bink[i2]));
            // embedding preserves the planar point, which determines the cell
            assert(bink[i2].p.x == s[j].p.x && bink[i2].p.y == s[j].p.y);
            assert(bink[i2].p == s[j].p);
            s.lemma_filter_pred(predk, i2);
            assert(predk(bink[i2]));
            assert(ck == c);
        }
    }
}

/// A bin's members are well-formed and no more numerous than the index's
/// total weight allows.
pub proof fn lemma_members_wf(
    s: Seq<WeightedPoint2>,
    ox: Dyadic,
    oy: Dyadic,
    g: Dyadic,
    cx: int,
    cy: int,
)
    requires
        crate::grid::points_wf(s),
        crate::grid::sum_w(s) <= MAX_WEIGHT_SUM,
    ensures
        forall|i: int|
            0 <= i < bin_points(s, ox, oy, g, cx, cy).len() ==> (#[trigger] bin_points(
                s,
                ox,
                oy,
                g,
                cx,
                cy,
            )[i]).wf(),
        bin_points(s, ox, oy, g, cx, cy).len() <= MAX_WEIGHT_SUM,
{
    let pred = |q: WeightedPoint2| crate::grid::spec_cell(q, ox, oy, g) == (cx, cy);
    let out = s.filter(pred);
    assert forall|i: int| 0 <= i < out.len() implies (#[trigger] out[i]).wf() by {
        assert(out.contains(out[i]));
        s.lemma_filter_contains_rev(pred, out[i]);
        let j = choose|j: int| 0 <= j < s.len() && s[j] == out[i];
        assert(s[j].wf());
    }
    s.lemma_filter_len(pred);
    crate::grid::lemma_sum_w_ge_len(s);
}

} // verus!
