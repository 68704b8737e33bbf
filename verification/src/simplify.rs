//! Cluster simplification: the weighted-centroid rule.
//!
//! `reduce` turns a non-empty weighted point set into its weighted centroid
//! `sum(w_i * p_i) / sum(w_i)`, computed exactly: the result's numerator and
//! denominator are the exact integer sums, scaled by the common power of two
//! of the inputs. `simplify` applies it to every non-empty bin of an index
//! in row-major bin order; `simplify_cluster` to one cluster's members with
//! unit weights.

use crate::cluster::{lemma_members_wf, Cluster};
use crate::error::ClusterError;
use crate::grid::{
    bin_points, cell_seq, coord, emax, lemma_sum_w_filter_le, lemma_sum_w_ge_len, points_wf,
    spec_cell, sum_w, Axis, GridIndex, MAX_WEIGHT_SUM,
};
use crate::num::{
    lemma_mul_magnitude, lemma_pow2_within_i128, pow2_i128, Dyadic, Ratio, COORD_EXP_MAX,
    COORD_MAG_EXP,
};
use crate::point::{Point2, Point3, RatioPoint2, RatioPoint3, WeightedPoint2};
use vstd::arithmetic::power2::{lemma_pow2_adds, lemma_pow2_pos, pow2};
use vstd::prelude::*;

verus! {

/// The largest fractional exponent among the points' coordinates: the
/// common scale of the exact centroid.
pub open spec fn max_exp(s: Seq<WeightedPoint2>) -> nat
    decreases s.len(),
{
    if s.len() == 0 {
        0
    } else {
        emax(max_exp(s.drop_last()), emax(s.last().p.x.exp as nat, s.last().p.y.exp as nat))
    }
}

/// `sum(w_i * c_i * 2^(m - e_i))` over one axis: the exact numerator of the
/// weighted coordinate sum, scaled by `2^m`.
pub open spec fn sum_aligned(s: Seq<WeightedPoint2>, m: nat, ax: Axis) -> int
    decreases s.len(),
{
    if s.len() == 0 {
        0
    } else {
        let c = coord(s.last(), ax);
        sum_aligned(s.drop_last(), m, ax) + s.last().w * c.num * pow2((m - c.exp) as nat)
    }
}

/// The weighted points of a cluster's members: each re-projected onto the
/// plane with unit weight.
pub open spec fn unit_weighted(members: Seq<Point3>) -> Seq<WeightedPoint2> {
    members.map_values(
        |q: Point3| WeightedPoint2 { p: Point2 { x: q.x, y: q.z }, w: 1u32 },
    )
}

/// `r` is exactly the weighted centroid of `s` on axis `ax`: the sums that
/// `reduce` computes.
pub open spec fn is_centroid(r: Ratio, s: Seq<WeightedPoint2>, ax: Axis) -> bool {
    r.num == sum_aligned(s, max_exp(s), ax) && r.den == sum_w(s) * pow2(max_exp(s))
}

/// `rp` and `w` are the exact reduction of the bin at cell `(cx, cy)` of
/// the index: the weighted centroid re-embedded with zero elevation, and
/// the bin's aggregate weight.
pub open spec fn reduced_at(
    index: GridIndex,
    rp: RatioPoint3,
    w: u64,
    cx: int,
    cy: int,
) -> bool {
    let items = index.spec_bin_points(cx, cy);
    &&& is_centroid(rp.x, items, Axis::X)
    &&& rp.y == (Ratio { num: 0i128, den: 1i128 })
    &&& is_centroid(rp.z, items, Axis::Y)
    &&& rp.wf()
    &&& w == sum_w(items)
}

/// `reps` and `ws` are exactly the simplification of the index: the exact
/// weighted centroid and aggregate weight of every non-empty bin, in
/// row-major bin order.
pub open spec fn simplify_result_ok(idx: GridIndex, reps: Seq<RatioPoint3>, ws: Seq<u64>) -> bool {
    &&& reps.len() == idx.spec_occupied().len()
    &&& ws.len() == idx.spec_occupied().len()
    &&& forall|k: int|
        0 <= k < reps.len() ==> reduced_at(
            idx,
            #[trigger] reps[k],
            ws[k],
            idx.spec_occupied()[k].0,
            idx.spec_occupied()[k].1,
        )
}

/// Every coordinate exponent is covered by the common scale.
pub proof fn lemma_max_exp_covers(s: Seq<WeightedPoint2>, i: int)
    requires
        0 <= i < s.len(),
    ensures
        s[i].p.x.exp <= max_exp(s),
        s[i].p.y.exp <= max_exp(s),
    decreases s.len(),
{
    if i < s.len() - 1 {
        lemma_max_exp_covers(s.drop_last(), i);
    }
}

/// The common scale stays within the coordinate exponent bound.
pub proof fn lemma_max_exp_wf(s: Seq<WeightedPoint2>)
    requires
        points_wf(s),
    ensures
        max_exp(s) <= COORD_EXP_MAX,
    decreases s.len(),
{
    if s.len() > 0 {
        assert(points_wf(s.drop_last()));
        lemma_max_exp_wf(s.drop_last());
        assert(s[s.len() - 1].wf());
    }
}

/// A prefix never outweighs the whole sequence.
pub proof fn lemma_sum_w_take_le(s: Seq<WeightedPoint2>, i: int)
    requires
        0 <= i <= s.len(),
    ensures
        sum_w(s.take(i)) <= sum_w(s),
    decreases s.len(),
{
    if i == s.len() {
        assert(s.take(i) =~= s);
    } else {
        assert(s.take(i) =~= s.drop_last().take(i));
        lemma_sum_w_take_le(s.drop_last(), i);
    }
}

/// Computes the exact weighted centroid of a non-empty weighted point set.
#[verifier::loop_isolation(false)]
fn centroid(items: &Vec<WeightedPoint2>) -> (r: (RatioPoint2, u64))
    requires
        points_wf(items@),
        sum_w(items@) <= MAX_WEIGHT_SUM,
        items@.len() > 0,
    ensures
        is_centroid(r.0.x, items@, Axis::X),
        is_centroid(r.0.y, items@, Axis::Y),
        r.0.wf(),
        r.1 == sum_w(items@),
{
    proof {
        lemma_max_exp_wf(items@);
        lemma_sum_w_ge_len(items@);
    }
    let ghost s = items@;
    let ghost mfull = max_exp(s);
    // first pass: the common scale
    let mut m: u32 = 0;
    let mut i: usize = 0;
    while i < items.len()
        invariant
            0 <= i <= s.len(),
            m == max_exp(s.take(i as int)),
            m <= COORD_EXP_MAX,
        decreases s.len() - i,
    {
        proof {
            assert(s.take(i as int + 1).drop_last() =~= s.take(i as int));
            assert(s.take(i as int + 1).last() == s[i as int]);
            assert(s[i as int].wf());
        }
        let px = items[i].p.x.exp;
        let py = items[i].p.y.exp;
        if px > m {
            m = px;
        }
        if py > m {
            m = py;
        }
        i = i + 1;
    }
    proof {
        assert(s.take(s.len() as int) =~= s);
    }
    // second pass: the exact sums
    let ghost wbound = pow2((COORD_MAG_EXP + mfull) as nat) as int;
    proof {
        lemma_pow2_pos((COORD_MAG_EXP + mfull) as nat);
        lemma_pow2_within_i128((COORD_MAG_EXP + mfull) as nat);
        lemma_pow2_adds(24, (COORD_MAG_EXP + mfull) as nat);
        lemma_pow2_within_i128((24 + COORD_MAG_EXP + mfull) as nat);
        vstd::arithmetic::power2::lemma2_to64();
    }
    let mut sx: i128 = 0;
    let mut sy: i128 = 0;
    let mut sw: u64 = 0;
    let mut i: usize = 0;
    while i < items.len()
        invariant
            0 <= i <= s.len(),
            m == mfull,
            sx == sum_aligned(s.take(i as int), mfull, Axis::X),
            sy == sum_aligned(s.take(i as int), mfull, Axis::Y),
            sw == sum_w(s.take(i as int)),
            -(sum_w(s.take(i as int)) * wbound) <= sx <= sum_w(s.take(i as int)) * wbound,
            -(sum_w(s.take(i as int)) * wbound) <= sy <= sum_w(s.take(i as int)) * wbound,
        decreases s.len() - i,
    {
        proof {
            assert(s.take(i as int + 1).drop_last() =~= s.take(i as int));
            assert(s.take(i as int + 1).last() == s[i as int]);
            assert(s[i as int].wf());
            lemma_max_exp_covers(s, i as int);
            lemma_sum_w_take_le(s, i as int + 1);
            lemma_sum_w_ge_len(s.take(i as int));
        }
        let p = items[i];
        let tx = aligned_term(&p.p.x, m);
        let ty = aligned_term(&p.p.y, m);
        proof {
            lemma_mul_magnitude(tx as int, p.w as int, wbound, p.w as int);
            lemma_mul_magnitude(ty as int, p.w as int, wbound, p.w as int);
            let swp = sum_w(s.take(i as int));
            let w = p.w as int;
            // the new term itself stays within range
            assert(w * tx == tx * w && w * ty == ty * w) by (nonlinear_arith);
            assert(wbound * w <= wbound * MAX_WEIGHT_SUM) by (nonlinear_arith)
                requires
                    0 <= w <= MAX_WEIGHT_SUM,
                    wbound > 0,
            ;
            assert(wbound * MAX_WEIGHT_SUM == MAX_WEIGHT_SUM * wbound) by (nonlinear_arith);
            // and it is exactly the next summand of the aligned sums
            assert(w * tx == w * p.p.x.num * pow2((mfull - p.p.x.exp) as nat))
                by (nonlinear_arith)
                requires
                    tx == p.p.x.num * pow2((mfull - p.p.x.exp) as nat),
            ;
            assert(w * ty == w * p.p.y.num * pow2((mfull - p.p.y.exp) as nat))
                by (nonlinear_arith)
                requires
                    ty == p.p.y.num * pow2((mfull - p.p.y.exp) as nat),
            ;
            assert(-((swp + w) * wbound) <= sx + w * tx <= (swp + w) * wbound) by (nonlinear_arith)
                requires
                    -(swp * wbound) <= sx <= swp * wbound,
                    -(wbound * w) <= tx * w <= wbound * w,
                    w * tx == tx * w,
                    w >= 0,
                    wbound > 0,
            ;
            assert(-((swp + w) * wbound) <= sy + w * ty <= (swp + w) * wbound) by (nonlinear_arith)
                requires
                    -(swp * wbound) <= sy <= swp * wbound,
                    -(wbound * w) <= ty * w <= wbound * w,
                    w * ty == ty * w,
                    w >= 0,
                    wbound > 0,
            ;
            assert((swp + w) * wbound <= MAX_WEIGHT_SUM * wbound) by (nonlinear_arith)
                requires
                    swp + w <= MAX_WEIGHT_SUM,
                    wbound > 0,
            ;
            assert(MAX_WEIGHT_SUM * wbound == pow2((24 + COORD_MAG_EXP + mfull) as nat)) by {
                lemma_pow2_adds(24, (COORD_MAG_EXP + mfull) as nat);
                vstd::arithmetic::power2::lemma2_to64();
            }
        }
        sx = sx + (p.w as i128) * tx;
        sy = sy + (p.w as i128) * ty;
        sw = sw + (p.w as u64);
        i = i + 1;
    }
    proof {
        assert(s.take(s.len() as int) =~= s);
        lemma_mul_magnitude(
            sw as int,
            pow2(mfull) as int,
            MAX_WEIGHT_SUM as int,
            pow2(mfull) as int,
        );
        lemma_pow2_adds(24, mfull);
        lemma_pow2_within_i128((24 + mfull) as nat);
        lemma_pow2_pos(mfull);
        vstd::arithmetic::power2::lemma2_to64();
        assert(sum_w(s) * pow2(mfull) > 0) by (nonlinear_arith)
            requires
                sum_w(s) >= 1,
                pow2(mfull) >= 1,
        ;
    }
    let den = (sw as i128) * pow2_i128(m);
    (RatioPoint2 { x: Ratio { num: sx, den }, y: Ratio { num: sy, den } }, sw)
}

/// One aligned term `c.num * 2^(m - c.exp)` of the centroid numerator.
fn aligned_term(c: &Dyadic, m: u32) -> (r: i128)
    requires
        c.wf(),
        c.exp <= m,
        m <= COORD_EXP_MAX,
    ensures
        r == c.num * pow2((m - c.exp) as nat),
        -(pow2((COORD_MAG_EXP + m) as nat) as int) <= r <= pow2((COORD_MAG_EXP + m) as nat) as int,
{
    proof {
        lemma_pow2_pos((m - c.exp) as nat);
        lemma_pow2_adds((COORD_MAG_EXP + c.exp) as nat, (m - c.exp) as nat);
        lemma_pow2_within_i128((COORD_MAG_EXP + m) as nat);
        lemma_mul_magnitude(
            c.num as int,
            pow2((m - c.exp) as nat) as int,
            pow2((COORD_MAG_EXP + c.exp) as nat) as int,
            pow2((m - c.exp) as nat) as int,
        );
    }
    (c.num as i128) * pow2_i128(m - c.exp)
}

/// Reduces a weighted point set to its weighted centroid
/// `sum(w_i * p_i) / sum(w_i)`, exactly. Fails with `EmptyInput` exactly
/// when given zero points.
pub fn reduce(items: &Vec<WeightedPoint2>) -> (r: Result<RatioPoint2, ClusterError>)
    requires
        points_wf(items@),
        sum_w(items@) <= MAX_WEIGHT_SUM,
    ensures
        match r {
            Ok(rp) => {
                &&& items@.len() > 0
                &&& is_centroid(rp.x, items@, Axis::X)
                &&& is_centroid(rp.y, items@, Axis::Y)
                &&& rp.wf()
            },
            Err(e) => e == ClusterError::EmptyInput && items@.len() == 0,
        },
{
    if items.len() == 0 {
        return Err(ClusterError::EmptyInput);
    }
    let (rp, _) = centroid(items);
    Ok(rp)
}

/// Simplifies a whole index: one representative point and one aggregate
/// weight per non-empty bin, in the row-major bin order of cluster
/// building. Fails with `EmptyInput` exactly when the index holds no
/// points.
#[verifier::loop_isolation(false)]
pub fn simplify(index: &GridIndex) -> (r: Result<(Vec<RatioPoint3>, Vec<u64>), ClusterError>)
    requires
        index.wf(),
    ensures
        match r {
            Ok(pair) => index.points@.len() > 0 && simplify_result_ok(*index, pair.0@, pair.1@),
            Err(e) => e == ClusterError::EmptyInput && index.points@.len() == 0,
        },
{
    if index.points.len() == 0 {
        return Err(ClusterError::EmptyInput);
    }
    let nbx = index.nbx;
    let nby = index.nby;
    proof {
        assert(nbx * nby <= crate::grid::MAX_BINS_PER_AXIS * crate::grid::MAX_BINS_PER_AXIS)
            by (nonlinear_arith)
            requires
                0 <= nbx <= crate::grid::MAX_BINS_PER_AXIS,
                0 <= nby <= crate::grid::MAX_BINS_PER_AXIS,
        ;
    }
    let total = nbx * nby;
    let ghost cells = cell_seq(nbx as int, nby as int);
    let ghost occ_pred = |c: (int, int)| bin_points(
        index.points@,
        index.origin_x,
        index.origin_y,
        index.bin_size,
        c.0,
        c.1,
    ).len() > 0;
    let mut reps: Vec<RatioPoint3> = Vec::new();
    let mut ws: Vec<u64> = Vec::new();
    let mut t: usize = 0;
    while t < total
        invariant
            0 <= t <= total,
            reps@.len() == cells.take(t as int).filter(occ_pred).len(),
            ws@.len() == reps@.len(),
            forall|k: int|
                0 <= k < reps@.len() ==> reduced_at(
                    *index,
                    #[trigger] reps@[k],
                    ws@[k],
                    cells.take(t as int).filter(occ_pred)[k].0,
                    cells.take(t as int).filter(occ_pred)[k].1,
                ),
        decreases total - t,
    {
        proof {
            assert(nby > 0) by (nonlinear_arith)
                requires
                    total == nbx * nby,
                    t < total,
                    nby >= 0,
            ;
        }
        let ix = t / nby;
        let iy = t % nby;
        proof {
            assert(cells[t as int] == (ix as int, iy as int));
            assert(cells.take(t as int + 1).drop_last() =~= cells.take(t as int));
            assert(cells.take(t as int + 1).last() == cells[t as int]);
            crate::grid::lemma_filter_push(cells.take(t as int), occ_pred, cells[t as int]);
            assert(cells.take(t as int).push(cells[t as int]) =~= cells.take(t as int + 1));
        }
        match index.get_bin(ix, iy) {
            Some(items) => {
                proof {
                    lemma_members_wf(
                        index.points@,
                        index.origin_x,
                        index.origin_y,
                        index.bin_size,
                        ix as int,
                        iy as int,
                    );
                    lemma_sum_w_filter_le(
                        index.points@,
                        |q: WeightedPoint2| spec_cell(
                            q,
                            index.origin_x,
                            index.origin_y,
                            index.bin_size,
                        ) == (ix as int, iy as int),
                    );
                }
                let (rp, w) = centroid(items);
                reps.push(RatioPoint3 { x: rp.x, y: Ratio::zero(), z: rp.y });
                ws.push(w);
            },
            None => {},
        }
        t = t + 1;
    }
    proof {
        assert(cells.take(total as int) =~= cells);
        assert(index.spec_occupied() == cells.take(total as int).filter(occ_pred));
    }
    Ok((reps, ws))
}

/// Simplifies one cluster's members with unit weights: the unweighted
/// centroid, re-embedded with zero elevation. Fails with `EmptyInput`
/// exactly when the cluster has no members; an empty cluster is rejected,
/// never reduced to a fabricated origin point.
#[verifier::loop_isolation(false)]
pub fn simplify_cluster(c: &Cluster) -> (r: Result<RatioPoint3, ClusterError>)
    requires
        c.wf(),
    ensures
        match r {
            Ok(p) => {
                &&& c.members@.len() > 0
                &&& is_centroid(p.x, unit_weighted(c.members@), Axis::X)
                &&& p.y == (Ratio { num: 0i128, den: 1i128 })
                &&& is_centroid(p.z, unit_weighted(c.members@), Axis::Y)
                &&& p.wf()
            },
            Err(e) => e == ClusterError::EmptyInput && c.members@.len() == 0,
        },
{
    if c.members.len() == 0 {
        return Err(ClusterError::EmptyInput);
    }
    let mut items: Vec<WeightedPoint2> = Vec::new();
    let mut i: usize = 0;
    while i < c.members.len()
        invariant
            0 <= i <= c.members@.len(),
            items@.len() == i,
            forall|j: int|
                0 <= j < i ==> items@[j] == (WeightedPoint2 {
                    p: Point2 { x: (#[trigger] c.members@[j]).x, y: c.members@[j].z },
                    w: 1u32,
                }),
        decreases c.members@.len() - i,
    {
        let q = c.members[i];
        items.push(WeightedPoint2 { p: Point2 { x: q.x, y: q.z }, w: 1 });
        i = i + 1;
    }
    proof {
        assert(items@ =~= unit_weighted(c.members@));
        lemma_unit_weight_sum(items@);
        assert(points_wf(items@));
    }
    let (rp, _) = centroid(&items);
    Ok(RatioPoint3 { x: rp.x, y: Ratio::zero(), z: rp.y })
}

/// With unit weights the weight sum is the count.
pub proof fn lemma_unit_weight_sum(s: Seq<WeightedPoint2>)
    requires
        forall|i: int| 0 <= i < s.len() ==> (#[trigger] s[i]).w == 1,
    ensures
        sum_w(s) == s.len(),
    decreases s.len(),
{
    if s.len() > 0 {
        lemma_unit_weight_sum(s.drop_last());
    }
}

/// The centroid of identical points is that point: reducing one point, or
/// any number of copies of it under any weights, returns the point
/// unchanged (as a value). The hypotheses are exactly what `reduce`
/// guarantees of its result.
pub proof fn lemma_reduce_identical_points(s: Seq<WeightedPoint2>, q: Point2, rx: Ratio, ry: Ratio)
    requires
        s.len() > 0,
        forall|i: int| 0 <= i < s.len() ==> (#[trigger] s[i]).p == q,
        is_centroid(rx, s, Axis::X),
        is_centroid(ry, s, Axis::Y),
    ensures
        rx.spec_eq_dyadic(q.x),
        ry.spec_eq_dyadic(q.y),
{
    let m = max_exp(s);
    lemma_max_exp_covers(s, 0);
    lemma_sum_aligned_constant(s, q, m, Axis::X);
    lemma_sum_aligned_constant(s, q, m, Axis::Y);
    lemma_pow2_adds((m - q.x.exp) as nat, q.x.exp as nat);
    lemma_pow2_adds((m - q.y.exp) as nat, q.y.exp as nat);
    assert(rx.num * pow2(q.x.exp as nat) == q.x.num * rx.den) by (nonlinear_arith)
        requires
            rx.num == q.x.num * pow2((m - q.x.exp) as nat) * sum_w(s),
            rx.den == sum_w(s) * pow2(m),
            pow2((m - q.x.exp) as nat) * pow2(q.x.exp as nat) == pow2(m),
    ;
    assert(ry.num * pow2(q.y.exp as nat) == q.y.num * ry.den) by (nonlinear_arith)
        requires
            ry.num == q.y.num * pow2((m - q.y.exp) as nat) * sum_w(s),
            ry.den == sum_w(s) * pow2(m),
            pow2((m - q.y.exp) as nat) * pow2(q.y.exp as nat) == pow2(m),
    ;
}

/// Over identical points the aligned sum factors into one aligned term
/// times the weight sum.
proof fn lemma_sum_aligned_constant(s: Seq<WeightedPoint2>, q: Point2, m: nat, ax: Axis)
    requires
        forall|i: int| 0 <= i < s.len() ==> (#[trigger] s[i]).p == q,
    ensures
        sum_aligned(s, m, ax) == coord(
            WeightedPoint2 { p: q, w: 1u32 },
            ax,
        ).num * pow2((m - coord(WeightedPoint2 { p: q, w: 1u32 }, ax).exp) as nat) * sum_w(s),
    decreases s.len(),
{
    let c = coord(WeightedPoint2 { p: q, w: 1u32 }, ax);
    let pw = pow2((m - c.exp) as nat) as int;
    let term = c.num * pw;
    if s.len() == 0 {
        assert(term * 0 == 0) by (nonlinear_arith);
    } else {
        lemma_sum_aligned_constant(s.drop_last(), q, m, ax);
        assert(coord(s.last(), ax) == c);
        let w = s.last().w as int;
        assert(w * c.num * pw == term * w) by (nonlinear_arith)
            requires
                term == c.num * pw,
        ;
        assert(term * sum_w(s.drop_last()) + term * w == term * (sum_w(s.drop_last()) + w))
            by (nonlinear_arith);
    }
}

} // verus!
