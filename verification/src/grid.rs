//! The uniform grid index.
//!
//! `GridIndex` partitions a weighted planar point set into square bins of a
//! fixed size. The grid origin is the per-axis minimum over the input, so
//! bin coordinates are non-negative; a point's bin is
//! `floor((coordinate - origin) / bin_size)`, computed exactly on dyadic
//! values. Bins are sparse: only non-empty bins are stored, each holding its
//! member points in input order.

use crate::error::ClusterError;
use crate::num::{
    lemma_mul_magnitude, lemma_pow2_within_i128, pow2_i128, Dyadic, COORD_EXP_MAX, COORD_MAG_EXP,
};
use crate::point::WeightedPoint2;
use vstd::arithmetic::div_mod::{
    lemma_div_denominator, lemma_div_multiples_vanish, lemma_div_pos_is_pos,
};
use vstd::arithmetic::power2::{lemma2_to64, lemma_pow2_adds, lemma_pow2_pos, pow2};
use vstd::multiset::Multiset;
use vstd::prelude::*;

verus! {

/// Largest number of bins the index may span along one axis.
pub const MAX_BINS_PER_AXIS: usize = 32768;

/// Largest total weight an index may carry; keeps centroid sums exact.
pub const MAX_WEIGHT_SUM: u64 = 16777216;

/// The two grid axes. Clustering works in the projected plane, whose `Y`
/// axis carries the spatial `z` coordinate.
#[derive(Clone, Copy, Debug, PartialEq, Eq, Structural)]
pub enum Axis {
    X,
    Y,
}

/// The coordinate of a weighted point along one axis.
pub open spec fn coord(p: WeightedPoint2, ax: Axis) -> Dyadic {
    match ax {
        Axis::X => p.p.x,
        Axis::Y => p.p.y,
    }
}

/// The larger of two exponents.
pub open spec fn emax(a: nat, b: nat) -> nat {
    if a >= b {
        a
    } else {
        b
    }
}

/// `(x - o) * 2^m`, where `m` is the common (larger) exponent: the exact
/// difference of the two dyadic values, scaled to an integer.
pub open spec fn aligned_diff(x: Dyadic, o: Dyadic) -> int {
    let m = emax(x.exp as nat, o.exp as nat);
    x.num * pow2((m - x.exp) as nat) - o.num * pow2((m - o.exp) as nat)
}

/// `floor((x - o) / g)`: the bin coordinate of `x` on an axis with origin
/// `o` and bin size `g`.
pub open spec fn spec_bin(x: Dyadic, o: Dyadic, g: Dyadic) -> int {
    let m = emax(x.exp as nat, o.exp as nat);
    (aligned_diff(x, o) * pow2(g.exp as nat)) / (pow2(m) * g.num)
}

/// The bin cell `(ix, iy)` of a weighted point.
pub open spec fn spec_cell(p: WeightedPoint2, ox: Dyadic, oy: Dyadic, g: Dyadic) -> (int, int) {
    (spec_bin(p.p.x, ox, g), spec_bin(p.p.y, oy, g))
}

/// The per-axis minimum coordinate over the points: the grid origin on that
/// axis. Zero for an empty input, where no origin is meaningful.
pub open spec fn spec_min(s: Seq<WeightedPoint2>, ax: Axis) -> Dyadic
    decreases s.len(),
{
    if s.len() == 0 {
        Dyadic { num: 0, exp: 0 }
    } else if s.len() == 1 {
        coord(s[0], ax)
    } else {
        let m = spec_min(s.drop_last(), ax);
        if m.spec_le(coord(s.last(), ax)) {
            m
        } else {
            coord(s.last(), ax)
        }
    }
}

/// The sum of the points' weights.
pub open spec fn sum_w(s: Seq<WeightedPoint2>) -> int
    decreases s.len(),
{
    if s.len() == 0 {
        0
    } else {
        sum_w(s.drop_last()) + s.last().w
    }
}

/// One more than the largest occupied bin coordinate along an axis with
/// origin `o`; zero for an empty input. The number of bins the index spans
/// on that axis.
pub open spec fn spec_nb(s: Seq<WeightedPoint2>, o: Dyadic, g: Dyadic, ax: Axis) -> int
    decreases s.len(),
{
    if s.len() == 0 {
        0
    } else {
        let rest = spec_nb(s.drop_last(), o, g, ax);
        let last = spec_bin(coord(s.last(), ax), o, g) + 1;
        if rest >= last {
            rest
        } else {
            last
        }
    }
}

/// The members of the bin at cell `(cx, cy)`: the points whose cell it is,
/// in input order.
pub open spec fn bin_points(
    s: Seq<WeightedPoint2>,
    ox: Dyadic,
    oy: Dyadic,
    g: Dyadic,
    cx: int,
    cy: int,
) -> Seq<WeightedPoint2> {
    s.filter(|p: WeightedPoint2| spec_cell(p, ox, oy, g) == (cx, cy))
}

/// All points are well-formed.
pub open spec fn points_wf(s: Seq<WeightedPoint2>) -> bool {
    forall|i: int| 0 <= i < s.len() ==> (#[trigger] s[i]).wf()
}

/// The grid the points span, with this bin size, stays within the machine
/// limits of the index.
pub open spec fn spec_extent_ok(s: Seq<WeightedPoint2>, g: Dyadic) -> bool {
    &&& spec_nb(s, spec_min(s, Axis::X), g, Axis::X) <= MAX_BINS_PER_AXIS
    &&& spec_nb(s, spec_min(s, Axis::Y), g, Axis::Y) <= MAX_BINS_PER_AXIS
}

/// With every weight at least one, the weight sum dominates the count.
pub proof fn lemma_sum_w_ge_len(s: Seq<WeightedPoint2>)
    requires
        points_wf(s),
    ensures
        sum_w(s) >= s.len(),
    decreases s.len(),
{
    if s.len() > 0 {
        assert(points_wf(s.drop_last()));
        lemma_sum_w_ge_len(s.drop_last());
        assert(s[s.len() - 1].wf());
    }
}

/// A bin's weight never exceeds the whole input's weight.
pub proof fn lemma_sum_w_filter_le(s: Seq<WeightedPoint2>, pred: spec_fn(WeightedPoint2) -> bool)
    ensures
        sum_w(s.filter(pred)) <= sum_w(s),
    decreases s.len(),
{
    reveal(Seq::filter);
    if s.len() > 0 {
        let rest = s.drop_last();
        lemma_sum_w_filter_le(rest, pred);
        if pred(s.last()) {
            assert(rest.filter(pred).push(s.last()).drop_last() =~= rest.filter(pred));
        }
    }
}

/// Transitivity of dyadic value comparison.
pub proof fn lemma_dy_le_trans(a: Dyadic, b: Dyadic, c: Dyadic)
    requires
        a.spec_le(b),
        b.spec_le(c),
    ensures
        a.spec_le(c),
{
    let pa = pow2(a.exp as nat) as int;
    let pb = pow2(b.exp as nat) as int;
    let pc = pow2(c.exp as nat) as int;
    lemma_pow2_pos(a.exp as nat);
    lemma_pow2_pos(b.exp as nat);
    lemma_pow2_pos(c.exp as nat);
    assert(a.num * pc <= c.num * pa) by (nonlinear_arith)
        requires
            a.num * pb <= b.num * pa,
            b.num * pc <= c.num * pb,
            pa > 0,
            pb > 0,
            pc > 0,
    ;
}

/// The origin is a lower bound for every coordinate on its axis.
pub proof fn lemma_min_le(s: Seq<WeightedPoint2>, ax: Axis, j: int)
    requires
        0 <= j < s.len(),
    ensures
        spec_min(s, ax).spec_le(coord(s[j], ax)),
    decreases s.len(),
{
    lemma_pow2_pos(coord(s[j], ax).exp as nat);
    lemma_pow2_pos(spec_min(s, ax).exp as nat);
    if s.len() == 1 {
        // the single point is its own minimum
    } else {
        let m = spec_min(s.drop_last(), ax);
        let last = coord(s.last(), ax);
        lemma_pow2_pos(m.exp as nat);
        lemma_pow2_pos(last.exp as nat);
        if j < s.len() - 1 {
            lemma_min_le(s.drop_last(), ax, j);
            if m.spec_le(last) {
                // minimum unchanged
            } else {
                lemma_dy_le_trans(last, m, coord(s[j], ax));
            }
        } else {
            if m.spec_le(last) {
                // the minimum of the prefix bounds the last point
            }
        }
    }
}

/// The axis span covers every point's bin coordinate.
pub proof fn lemma_nb_covers(s: Seq<WeightedPoint2>, o: Dyadic, g: Dyadic, ax: Axis, j: int)
    requires
        0 <= j < s.len(),
    ensures
        spec_bin(coord(s[j], ax), o, g) + 1 <= spec_nb(s, o, g, ax),
    decreases s.len(),
{
    if j < s.len() - 1 {
        lemma_nb_covers(s.drop_last(), o, g, ax, j);
    }
}

/// Appending a point extends exactly its own bin, and no other.
pub proof fn lemma_filter_push<A>(s: Seq<A>, pred: spec_fn(A) -> bool, x: A)
    ensures
        pred(x) ==> s.push(x).filter(pred) == s.filter(pred).push(x),
        !pred(x) ==> s.push(x).filter(pred) == s.filter(pred),
{
    reveal(Seq::filter);
    assert(s.push(x).drop_last() =~= s);
}

/// The scaled difference `(x - o) * 2^m` is non-negative when `o <= x`.
pub proof fn lemma_aligned_diff_nonneg(x: Dyadic, o: Dyadic)
    requires
        o.spec_le(x),
    ensures
        aligned_diff(x, o) >= 0,
{
    let m = emax(x.exp as nat, o.exp as nat);
    let px = pow2((m - x.exp) as nat) as int;
    let po = pow2((m - o.exp) as nat) as int;
    lemma_pow2_pos((m - x.exp) as nat);
    lemma_pow2_pos((m - o.exp) as nat);
    lemma_pow2_pos(x.exp as nat);
    lemma_pow2_pos(o.exp as nat);
    lemma_pow2_adds((m - x.exp) as nat, x.exp as nat);
    lemma_pow2_adds((m - o.exp) as nat, o.exp as nat);
    assert(x.num * px - o.num * po >= 0) by (nonlinear_arith)
        requires
            o.num * pow2(x.exp as nat) <= x.num * pow2(o.exp as nat),
            px * pow2(x.exp as nat) == pow2(m) && po * pow2(o.exp as nat) == pow2(m),
            px > 0 && po > 0,
            pow2(x.exp as nat) > 0 && pow2(o.exp as nat) > 0,
            pow2(m) > 0,
    ;
}

/// Magnitude bound on one aligned term: a well-formed coordinate scaled to
/// the common exponent `m` stays within `2^(COORD_MAG_EXP + m)`.
pub proof fn lemma_aligned_term_bound(d: Dyadic, m: nat)
    requires
        d.wf(),
        d.exp <= m,
    ensures
        -(pow2((COORD_MAG_EXP + m) as nat) as int) <= d.num * pow2((m - d.exp) as nat),
        d.num * pow2((m - d.exp) as nat) <= pow2((COORD_MAG_EXP + m) as nat) as int,
{
    let p = pow2((m - d.exp) as nat) as int;
    lemma_pow2_pos((m - d.exp) as nat);
    lemma_pow2_adds((COORD_MAG_EXP + d.exp) as nat, (m - d.exp) as nat);
    lemma_mul_magnitude(
        d.num as int,
        p,
        pow2((COORD_MAG_EXP + d.exp) as nat) as int,
        p,
    );
}

/// Computes the bin coordinate `floor((x - o) / g)` exactly.
///
/// All intermediates fit in `i128`: the aligned difference is bounded by
/// `2^(COORD_MAG_EXP + 1 + m)` with `m <= COORD_EXP_MAX`, and the final
/// scaling by `2^(g.exp - m)` cancels the alignment factor.
pub fn bin_index(x: &Dyadic, o: &Dyadic, g: &Dyadic) -> (r: i128)
    requires
        x.wf(),
        o.wf(),
        g.wf(),
        g.num > 0,
        o.spec_le(*x),
    ensures
        r == spec_bin(*x, *o, *g),
        r >= 0,
{
    let m: u32 = if x.exp >= o.exp {
        x.exp
    } else {
        o.exp
    };
    let ghost mn = emax(x.exp as nat, o.exp as nat);
    proof {
        lemma_aligned_term_bound(*x, mn);
        lemma_aligned_term_bound(*o, mn);
        lemma_pow2_within_i128((COORD_MAG_EXP + mn) as nat);
        lemma_pow2_within_i128((COORD_MAG_EXP + 1 + mn) as nat);
        lemma_pow2_adds((COORD_MAG_EXP + mn) as nat, 1);
        lemma2_to64();
        lemma_aligned_diff_nonneg(*x, *o);
    }
    let ax = (x.num as i128) * pow2_i128(m - x.exp);
    let ao = (o.num as i128) * pow2_i128(m - o.exp);
    let a = ax - ao;
    let ghost abound = pow2((COORD_MAG_EXP + 1 + mn) as nat) as int;
    assert(0 <= a <= abound);
    if g.exp >= m {
        // (a * 2^(g.exp - m)) / g.num == (a * 2^g.exp) / (2^m * g.num)
        let f = pow2_i128(g.exp - m);
        proof {
            lemma_pow2_adds((COORD_MAG_EXP + 1 + mn) as nat, (g.exp - mn) as nat);
            lemma_pow2_within_i128((COORD_MAG_EXP + 1 + g.exp) as nat);
            lemma_mul_magnitude(a as int, f as int, abound, f as int);
        }
        let n = a * f;
        let q = (n as u128) / (g.num as u128);
        proof {
            lemma_pow2_pos(mn);
            lemma_pow2_adds((g.exp - mn) as nat, mn);
            lemma_div_pos_is_pos(n as int, g.num as int);
            // a * 2^g.exp == n * 2^m, since f * 2^m == 2^g.exp
            assert(a * pow2(g.exp as nat) == n * pow2(mn)) by (nonlinear_arith)
                requires
                    n == a * f,
                    f * pow2(mn) == pow2(g.exp as nat),
            ;
            assert(aligned_diff(*x, *o) * pow2(g.exp as nat) == n * pow2(mn));
            lemma_div_cancel_factor(n as int, pow2(mn) as int, g.num as int);
            assert(spec_bin(*x, *o, *g) == (n as int) / (g.num as int));
        }
        q as i128
    } else {
        // a / (g.num * 2^(m - g.exp)) == (a * 2^g.exp) / (2^m * g.num)
        let f = pow2_i128(m - g.exp);
        proof {
            lemma_pow2_adds((COORD_MAG_EXP + g.exp) as nat, (mn - g.exp) as nat);
            lemma_pow2_within_i128((COORD_MAG_EXP + mn) as nat);
            lemma_mul_magnitude(
                g.num as int,
                f as int,
                pow2((COORD_MAG_EXP + g.exp) as nat) as int,
                f as int,
            );
            lemma_pow2_pos((mn - g.exp) as nat);
            assert(g.num * f > 0) by (nonlinear_arith)
                requires
                    g.num > 0,
                    f > 0,
            ;
        }
        let d = (g.num as i128) * f;
        let q = (a as u128) / (d as u128);
        proof {
            lemma_pow2_pos(g.exp as nat);
            lemma_div_pos_is_pos(a as int, d as int);
            lemma_pow2_adds(g.exp as nat, (mn - g.exp) as nat);
            // 2^m * g.num == 2^g.exp * d, since d == g.num * 2^(m - g.exp)
            assert(pow2(mn) * g.num == pow2(g.exp as nat) * d) by (nonlinear_arith)
                requires
                    pow2(g.exp as nat) * pow2((mn - g.exp) as nat) == pow2(mn),
                    d == g.num * pow2((mn - g.exp) as nat),
            ;
            lemma_div_cancel_factor(a as int, pow2(g.exp as nat) as int, d as int);
            assert(aligned_diff(*x, *o) * pow2(g.exp as nat) == a * pow2(g.exp as nat));
            assert(spec_bin(*x, *o, *g) == (a as int) / (d as int));
        }
        q as i128
    }
}

/// One stored bin: its cell coordinates and its member points in input
/// order.
pub struct GridBin {
    pub ix: usize,
    pub iy: usize,
    pub items: Vec<WeightedPoint2>,
}

/// Some stored bin has cell `(cx, cy)`.
pub open spec fn has_bin_seq(bins: Seq<GridBin>, cx: int, cy: int) -> bool {
    exists|b: int| 0 <= b < bins.len() && (#[trigger] bins[b]).ix == cx && bins[b].iy == cy
}

/// The stored bins are exactly the non-empty bins of the point sequence
/// `s`: each holds the filter of `s` for its cell, no cell is stored twice,
/// and every point's cell is stored.
pub open spec fn bins_ok(
    bins: Seq<GridBin>,
    s: Seq<WeightedPoint2>,
    ox: Dyadic,
    oy: Dyadic,
    g: Dyadic,
) -> bool {
    &&& forall|b: int|
        0 <= b < bins.len() ==> {
            let gb = #[trigger] bins[b];
            gb.items@ == bin_points(s, ox, oy, g, gb.ix as int, gb.iy as int)
                && gb.items@.len() > 0
        }
    &&& forall|b1: int, b2: int|
        0 <= b1 < bins.len() && 0 <= b2 < bins.len() && b1 != b2 ==> !((#[trigger] bins[b1]).ix
            == (#[trigger] bins[b2]).ix && bins[b1].iy == bins[b2].iy)
    &&& forall|j: int|
        0 <= j < s.len() ==> has_bin_seq(
            bins,
            spec_bin(coord(#[trigger] s[j], Axis::X), ox, g),
            spec_bin(coord(s[j], Axis::Y), oy, g),
        )
}

/// A uniform sparse grid over a weighted planar point set.
pub struct GridIndex {
    /// The full input, in presentation order.
    pub points: Vec<WeightedPoint2>,
    /// The side length of a square bin; strictly positive.
    pub bin_size: Dyadic,
    /// The per-axis minima of the input: the grid origin.
    pub origin_x: Dyadic,
    pub origin_y: Dyadic,
    /// The non-empty bins, each with its members in input order.
    pub bins: Vec<GridBin>,
    /// The number of bins the occupied cells span per axis.
    pub nbx: usize,
    pub nby: usize,
}

impl GridIndex {
    /// The structural invariant every built index satisfies.
    pub open spec fn wf(self) -> bool {
        &&& self.bin_size.wf() && self.bin_size.num > 0
        &&& points_wf(self.points@)
        &&& sum_w(self.points@) <= MAX_WEIGHT_SUM
        &&& self.origin_x == spec_min(self.points@, Axis::X) && self.origin_x.wf()
        &&& self.origin_y == spec_min(self.points@, Axis::Y) && self.origin_y.wf()
        &&& self.nbx == spec_nb(self.points@, self.origin_x, self.bin_size, Axis::X)
        &&& self.nby == spec_nb(self.points@, self.origin_y, self.bin_size, Axis::Y)
        &&& self.nbx <= MAX_BINS_PER_AXIS && self.nby <= MAX_BINS_PER_AXIS
        &&& bins_ok(self.bins@, self.points@, self.origin_x, self.origin_y, self.bin_size)
    }

    /// The members of the bin at cell `(cx, cy)`, under this index's origin
    /// and bin size.
    pub open spec fn spec_bin_points(self, cx: int, cy: int) -> Seq<WeightedPoint2> {
        bin_points(self.points@, self.origin_x, self.origin_y, self.bin_size, cx, cy)
    }

    /// Builds the index: determines the origin as the per-axis minimum and
    /// assigns every point to its bin, preserving input order within a bin.
    ///
    /// Fails with `InvalidParameter` exactly when the bin size is not
    /// strictly positive, or when the occupied cells would span more than
    /// `MAX_BINS_PER_AXIS` bins on an axis (the machine limit of the
    /// index).
    #[verifier::loop_isolation(false)]
    pub fn build(points: Vec<WeightedPoint2>, bin_size: Dyadic) -> (r: Result<
        GridIndex,
        ClusterError,
    >)
        requires
            points_wf(points@),
            bin_size.wf(),
            sum_w(points@) <= MAX_WEIGHT_SUM,
        ensures
            match r {
                Ok(idx) => {
                    &&& bin_size.num > 0
                    &&& spec_extent_ok(points@, bin_size)
                    &&& idx.wf()
                    &&& idx.points@ == points@
                    &&& idx.bin_size == bin_size
                },
                Err(e) => {
                    &&& e == ClusterError::InvalidParameter
                    &&& (bin_size.num <= 0 || !spec_extent_ok(points@, bin_size))
                },
            },
    {
        if !bin_size.is_pos() {
            return Err(ClusterError::InvalidParameter);
        }
        if points.len() == 0 {
            return Ok(
                GridIndex {
                    points,
                    bin_size,
                    origin_x: Dyadic::zero(),
                    origin_y: Dyadic::zero(),
                    bins: Vec::new(),
                    nbx: 0,
                    nby: 0,
                },
            );
        }
        let origin_x = fold_min(&points, Axis::X);
        let origin_y = fold_min(&points, Axis::Y);
        let mut bins: Vec<GridBin> = Vec::new();
        let mut nbx: usize = 0;
        let mut nby: usize = 0;
        let mut i: usize = 0;
        while i < points.len()
            invariant
                0 <= i <= points@.len(),
                nbx == spec_nb(points@.take(i as int), origin_x, bin_size, Axis::X),
                nby == spec_nb(points@.take(i as int), origin_y, bin_size, Axis::Y),
                nbx <= MAX_BINS_PER_AXIS,
                nby <= MAX_BINS_PER_AXIS,
                bins_ok(bins@, points@.take(i as int), origin_x, origin_y, bin_size),
            decreases points@.len() - i,
        {
            let p = points[i];
            proof {
                lemma_min_le(points@, Axis::X, i as int);
                lemma_min_le(points@, Axis::Y, i as int);
            }
            let bx128 = bin_index(&p.p.x, &origin_x, &bin_size);
            let by128 = bin_index(&p.p.y, &origin_y, &bin_size);
            if bx128 >= MAX_BINS_PER_AXIS as i128 || by128 >= MAX_BINS_PER_AXIS as i128 {
                proof {
                    lemma_nb_covers(points@, origin_x, bin_size, Axis::X, i as int);
                    lemma_nb_covers(points@, origin_y, bin_size, Axis::Y, i as int);
                }
                return Err(ClusterError::InvalidParameter);
            }
            let bx = bx128 as usize;
            let by = by128 as usize;
            proof {
                assert(points@.take(i as int + 1).drop_last() =~= points@.take(i as int));
                assert(points@.take(i as int + 1).last() == points@[i as int]);
            }
            if bx + 1 > nbx {
                nbx = bx + 1;
            }
            if by + 1 > nby {
                nby = by + 1;
            }
            place_point(
                &mut bins,
                p,
                bx,
                by,
                Ghost(points@.take(i as int)),
                Ghost(origin_x),
                Ghost(origin_y),
                Ghost(bin_size),
            );
            proof {
                assert(points@.take(i as int).push(points@[i as int]) =~= points@.take(
                    i as int + 1,
                ));
            }
            i = i + 1;
        }
        proof {
            assert(points@.take(points@.len() as int) =~= points@);
        }
        Ok(GridIndex { points, bin_size, origin_x, origin_y, bins, nbx, nby })
    }
}

/// The cells of an `nbx` by `nby` grid in row-major order (`x` outer, `y`
/// inner).
pub open spec fn cell_seq(nbx: int, nby: int) -> Seq<(int, int)> {
    Seq::new((nbx * nby) as nat, |t: int| (t / nby, t % nby))
}

/// The occupied cells of the grid in row-major order: the traversal order
/// of cluster building and of simplification.
pub open spec fn occupied_cells(
    s: Seq<WeightedPoint2>,
    ox: Dyadic,
    oy: Dyadic,
    g: Dyadic,
    nbx: int,
    nby: int,
) -> Seq<(int, int)> {
    cell_seq(nbx, nby).filter(|c: (int, int)| bin_points(s, ox, oy, g, c.0, c.1).len() > 0)
}

impl GridIndex {
    /// The occupied cells of this index in row-major order.
    pub open spec fn spec_occupied(self) -> Seq<(int, int)> {
        occupied_cells(
            self.points@,
            self.origin_x,
            self.origin_y,
            self.bin_size,
            self.nbx as int,
            self.nby as int,
        )
    }

    /// Looks up the bin at cell `(ix, iy)`: its member points in input
    /// order if the cell is occupied, nothing otherwise. Never fails.
    #[verifier::loop_isolation(false)]
    pub fn get_bin(&self, ix: usize, iy: usize) -> (r: Option<&Vec<WeightedPoint2>>)
        requires
            self.wf(),
        ensures
            match r {
                Some(v) => v@ == self.spec_bin_points(ix as int, iy as int) && v@.len() > 0,
                None => self.spec_bin_points(ix as int, iy as int).len() == 0,
            },
    {
        let mut b: usize = 0;
        while b < self.bins.len()
            invariant
                0 <= b <= self.bins@.len(),
                forall|k: int|
                    0 <= k < b ==> !((#[trigger] self.bins@[k]).ix == ix && self.bins@[k].iy
                        == iy),
            decreases self.bins@.len() - b,
        {
            if self.bins[b].ix == ix && self.bins[b].iy == iy {
                return Some(&self.bins[b].items);
            }
            b = b + 1;
        }
        proof {
            lemma_missing_cell_empty(
                self.bins@,
                self.points@,
                self.origin_x,
                self.origin_y,
                self.bin_size,
                ix as int,
                iy as int,
            );
        }
        None
    }

    /// The number of bins the occupied cells span along the `x` axis.
    pub fn num_bins_x(&self) -> (r: usize)
        requires
            self.wf(),
        ensures
            r == spec_nb(self.points@, spec_min(self.points@, Axis::X), self.bin_size, Axis::X),
    {
        self.nbx
    }

    /// The number of bins the occupied cells span along the `y` axis.
    pub fn num_bins_y(&self) -> (r: usize)
        requires
            self.wf(),
        ensures
            r == spec_nb(self.points@, spec_min(self.points@, Axis::Y), self.bin_size, Axis::Y),
    {
        self.nby
    }

    /// The number of non-empty bins.
    pub fn num_bins(&self) -> (r: usize)
        requires
            self.wf(),
        ensures
            r == self.spec_occupied().len(),
    {
        proof {
            lemma_bin_count(
                self.bins@,
                self.points@,
                self.origin_x,
                self.origin_y,
                self.bin_size,
                self.nbx as int,
                self.nby as int,
            );
        }
        self.bins.len()
    }
}

/// A cell no stored bin carries is empty.
pub proof fn lemma_missing_cell_empty(
    bins: Seq<GridBin>,
    s: Seq<WeightedPoint2>,
    ox: Dyadic,
    oy: Dyadic,
    g: Dyadic,
    cx: int,
    cy: int,
)
    requires
        bins_ok(bins, s, ox, oy, g),
        !has_bin_seq(bins, cx, cy),
    ensures
        bin_points(s, ox, oy, g, cx, cy).len() == 0,
{
    let pred = |q: WeightedPoint2| spec_cell(q, ox, oy, g) == (cx, cy);
    if s.filter(pred).len() > 0 {
        let v = s.filter(pred)[0];
        assert(s.filter(pred).contains(v));
        s.lemma_filter_contains_rev(pred, v);
        let j = choose|j: int| 0 <= j < s.len() && s[j] == v;
        s.lemma_filter_pred(pred, 0);
        assert(has_bin_seq(
            bins,
            spec_bin(coord(s[j], Axis::X), ox, g),
            spec_bin(coord(s[j], Axis::Y), oy, g),
        ));
    }
}

/// Every stored bin's cell lies inside the spanned ranges.
pub proof fn lemma_bins_keys_in_range(
    bins: Seq<GridBin>,
    s: Seq<WeightedPoint2>,
    ox: Dyadic,
    oy: Dyadic,
    g: Dyadic,
)
    requires
        bins_ok(bins, s, ox, oy, g),
    ensures
        forall|b: int|
            0 <= b < bins.len() ==> (#[trigger] bins[b]).ix < spec_nb(s, ox, g, Axis::X)
                && bins[b].iy < spec_nb(s, oy, g, Axis::Y),
{
    assert forall|b: int|
        0 <= b < bins.len() implies (#[trigger] bins[b]).ix < spec_nb(s, ox, g, Axis::X)
        && bins[b].iy < spec_nb(s, oy, g, Axis::Y) by {
        let gb = bins[b];
        let pred = |q: WeightedPoint2| spec_cell(q, ox, oy, g) == (gb.ix as int, gb.iy as int);
        let v = s.filter(pred)[0];
        assert(s.filter(pred).contains(v));
        s.lemma_filter_contains_rev(pred, v);
        let j = choose|j: int| 0 <= j < s.len() && s[j] == v;
        s.lemma_filter_pred(pred, 0);
        lemma_nb_covers(s, ox, g, Axis::X, j);
        lemma_nb_covers(s, oy, g, Axis::Y, j);
    }
}

/// Filtering preserves distinctness.
pub proof fn lemma_filter_no_duplicates<A>(s: Seq<A>, pred: spec_fn(A) -> bool)
    requires
        s.no_duplicates(),
    ensures
        s.filter(pred).no_duplicates(),
    decreases s.len(),
{
    reveal(Seq::filter);
    if s.len() > 0 {
        let rest = s.drop_last();
        assert(rest.no_duplicates());
        lemma_filter_no_duplicates(rest, pred);
        if pred(s.last()) {
            if rest.filter(pred).contains(s.last()) {
                rest.lemma_filter_contains_rev(pred, s.last());
            }
            assert(!rest.filter(pred).contains(s.last()));
            let out = rest.filter(pred).push(s.last());
            assert forall|i: int, j: int| 0 <= i < j < out.len() implies out[i] != out[j] by {
                if j == out.len() - 1 {
                    assert(rest.filter(pred).contains(out[i]));
                }
            }
        }
    }
}

/// The row-major cell enumeration holds each cell of the box exactly once.
pub proof fn lemma_cell_seq_facts(nbx: int, nby: int)
    requires
        nbx >= 0,
        nby >= 0,
    ensures
        cell_seq(nbx, nby).no_duplicates(),
        forall|c: (int, int)|
            cell_seq(nbx, nby).contains(c) <==> (0 <= c.0 < nbx && 0 <= c.1 < nby),
{
    let cells = cell_seq(nbx, nby);
    if nby == 0 {
        assert(cells.len() == 0);
        assert forall|c: (int, int)| cells.contains(c) implies (0 <= c.0 < nbx && 0 <= c.1
            < nby) by {}
        assert forall|c: (int, int)| (0 <= c.0 < nbx && 0 <= c.1 < nby) implies cells.contains(
            c,
        ) by {}
    } else {
        assert forall|t: int| 0 <= t < nbx * nby implies 0 <= #[trigger] cells[t].0 < nbx && 0
            <= cells[t].1 < nby by {
            lemma_div_pos_is_pos(t, nby);
            vstd::arithmetic::div_mod::lemma_mod_bound(t, nby);
            vstd::arithmetic::div_mod::lemma_fundamental_div_mod(t, nby);
            assert(t / nby < nbx) by (nonlinear_arith)
                requires
                    t < nbx * nby,
                    nby > 0,
                    t == nby * (t / nby) + t % nby,
                    0 <= t % nby < nby,
            ;
        }
        assert forall|t1: int, t2: int| 0 <= t1 < t2 < cells.len() implies cells[t1]
            != cells[t2] by {
            vstd::arithmetic::div_mod::lemma_fundamental_div_mod(t1, nby);
            vstd::arithmetic::div_mod::lemma_fundamental_div_mod(t2, nby);
        }
        assert forall|c: (int, int)| (0 <= c.0 < nbx && 0 <= c.1 < nby) implies cells.contains(
            c,
        ) by {
            let t = c.0 * nby + c.1;
            assert(0 <= t < nbx * nby) by (nonlinear_arith)
                requires
                    0 <= c.0 < nbx,
                    0 <= c.1 < nby,
                    t == c.0 * nby + c.1,
            ;
            vstd::arithmetic::div_mod::lemma_fundamental_div_mod_converse(t, nby, c.0, c.1);
            assert(cells[t] == c);
        }
    }
}

/// The stored bins and the occupied row-major cells are in one-to-one
/// correspondence, so their counts agree.
pub proof fn lemma_bin_count(
    bins: Seq<GridBin>,
    s: Seq<WeightedPoint2>,
    ox: Dyadic,
    oy: Dyadic,
    g: Dyadic,
    nbx: int,
    nby: int,
)
    requires
        bins_ok(bins, s, ox, oy, g),
        nbx == spec_nb(s, ox, g, Axis::X),
        nby == spec_nb(s, oy, g, Axis::Y),
    ensures
        bins.len() == occupied_cells(s, ox, oy, g, nbx, nby).len(),
{
    let keys = Seq::new(bins.len(), |b: int| ((bins[b].ix as int, bins[b].iy as int)));
    let occ = occupied_cells(s, ox, oy, g, nbx, nby);
    let occ_pred = |c: (int, int)| bin_points(s, ox, oy, g, c.0, c.1).len() > 0;
    lemma_cell_seq_facts(nbx, nby);
    lemma_filter_no_duplicates(cell_seq(nbx, nby), occ_pred);
    lemma_bins_keys_in_range(bins, s, ox, oy, g);
    assert(keys.no_duplicates());
    // the two key sets coincide
    assert forall|c: (int, int)| #[trigger] keys.contains(c) implies occ.contains(c) by {
        let b = choose|b: int| 0 <= b < keys.len() && keys[b] == c;
        assert(bins[b].items@.len() > 0);
        assert(occ_pred(c));
        assert(cell_seq(nbx, nby).contains(c));
        let t = choose|t: int| 0 <= t < cell_seq(nbx, nby).len() && cell_seq(nbx, nby)[t] == c;
        cell_seq(nbx, nby).lemma_filter_contains(occ_pred, t);
    }
    assert forall|c: (int, int)| #[trigger] occ.contains(c) implies keys.contains(c) by {
        let t = choose|t: int| 0 <= t < occ.len() && occ[t] == c;
        cell_seq(nbx, nby).lemma_filter_pred(occ_pred, t);
        if !has_bin_seq(bins, c.0, c.1) {
            lemma_missing_cell_empty(bins, s, ox, oy, g, c.0, c.1);
        }
        let b = choose|b: int|
            0 <= b < bins.len() && (#[trigger] bins[b]).ix == c.0 && bins[b].iy == c.1;
        assert(keys[b] == c);
    }
    assert(keys.to_set() =~= occ.to_set()) by {
        assert forall|c: (int, int)| keys.to_set().contains(c) implies occ.to_set().contains(
            c,
        ) by {
            assert(keys.contains(c));
            assert(occ.contains(c));
        }
        assert forall|c: (int, int)| occ.to_set().contains(c) implies keys.to_set().contains(
            c,
        ) by {
            assert(occ.contains(c));
            assert(keys.contains(c));
        }
    }
    keys.unique_seq_to_set();
    occ.unique_seq_to_set();
}

/// The members of the listed cells, one bin after another: what the
/// emitted clusters hold, in order.
pub open spec fn gathered(
    cells: Seq<(int, int)>,
    s: Seq<WeightedPoint2>,
    ox: Dyadic,
    oy: Dyadic,
    g: Dyadic,
) -> Seq<WeightedPoint2>
    decreases cells.len(),
{
    if cells.len() == 0 {
        Seq::empty()
    } else {
        gathered(cells.drop_last(), s, ox, oy, g) + bin_points(
            s,
            ox,
            oy,
            g,
            cells.last().0,
            cells.last().1,
        )
    }
}

/// A point's bin coordinate is non-negative when the origin is no larger
/// than its coordinate.
pub proof fn lemma_bin_nonneg(x: Dyadic, o: Dyadic, g: Dyadic)
    requires
        o.spec_le(x),
        g.num > 0,
    ensures
        spec_bin(x, o, g) >= 0,
{
    let m = emax(x.exp as nat, o.exp as nat);
    lemma_aligned_diff_nonneg(x, o);
    lemma_pow2_pos(g.exp as nat);
    lemma_pow2_pos(m);
    assert(aligned_diff(x, o) * pow2(g.exp as nat) >= 0) by (nonlinear_arith)
        requires
            aligned_diff(x, o) >= 0,
            pow2(g.exp as nat) > 0,
    ;
    assert(pow2(m) * g.num > 0) by (nonlinear_arith)
        requires
            pow2(m) > 0,
            g.num > 0,
    ;
    lemma_div_pos_is_pos(aligned_diff(x, o) * pow2(g.exp as nat), pow2(m) * g.num as int);
}

/// A filter that keeps everything is the sequence itself.
proof fn lemma_filter_all_true<A>(s: Seq<A>, pred: spec_fn(A) -> bool)
    requires
        forall|j: int| 0 <= j < s.len() ==> pred(#[trigger] s[j]),
    ensures
        s.filter(pred) == s,
    decreases s.len(),
{
    reveal(Seq::filter);
    if s.len() > 0 {
        let rest = s.drop_last();
        assert(forall|j: int| 0 <= j < rest.len() ==> pred(#[trigger] rest[j]));
        lemma_filter_all_true(rest, pred);
        assert(s.filter(pred) =~= s);
    }
}

/// Concatenation turns into multiset addition.
proof fn lemma_concat_to_multiset<A>(a: Seq<A>, b: Seq<A>)
    ensures
        (a + b).to_multiset() == a.to_multiset().add(b.to_multiset()),
    decreases b.len(),
{
    broadcast use vstd::seq_lib::group_to_multiset_ensures;

    if b.len() == 0 {
        assert(a + b =~= a);
        assert(b.to_multiset() =~= Multiset::<A>::empty()) by {
            assert forall|x: A| #[trigger] b.to_multiset().count(x) == 0 by {
                if b.to_multiset().count(x) > 0 {
                    assert(b.contains(x));
                }
            }
        }
        assert(a.to_multiset().add(b.to_multiset()) =~= a.to_multiset());
    } else {
        lemma_concat_to_multiset(a, b.drop_last());
        assert(a + b =~= (a + b.drop_last()).push(b.last()));
        assert(b =~= b.drop_last().push(b.last()));
        assert((a + b).to_multiset() =~= a.to_multiset().add(b.to_multiset()));
    }
}

/// Filtering by two disjoint predicates splits the filter of their union,
/// as multisets.
proof fn lemma_filter_partition_disjoint<A>(
    s: Seq<A>,
    p: spec_fn(A) -> bool,
    q: spec_fn(A) -> bool,
    r: spec_fn(A) -> bool,
)
    requires
        forall|x: A| !(#[trigger] p(x) && #[trigger] q(x)),
        forall|x: A| #[trigger] r(x) <==> (p(x) || q(x)),
    ensures
        s.filter(r).to_multiset() == s.filter(p).to_multiset().add(s.filter(q).to_multiset()),
    decreases s.len(),
{
    broadcast use vstd::seq_lib::group_to_multiset_ensures;

    reveal(Seq::filter);
    if s.len() == 0 {
        assert(s.filter(r).to_multiset() =~= s.filter(p).to_multiset().add(
            s.filter(q).to_multiset(),
        ));
    } else {
        let rest = s.drop_last();
        let x = s.last();
        lemma_filter_partition_disjoint(rest, p, q, r);
        assert(s.filter(r).to_multiset() =~= s.filter(p).to_multiset().add(
            s.filter(q).to_multiset(),
        ));
    }
}

/// Gathering the bins of distinct cells collects, as a multiset, exactly
/// the points whose cell is listed.
proof fn lemma_gathered_partition(
    cells: Seq<(int, int)>,
    s: Seq<WeightedPoint2>,
    ox: Dyadic,
    oy: Dyadic,
    g: Dyadic,
)
    requires
        cells.no_duplicates(),
    ensures
        gathered(cells, s, ox, oy, g).to_multiset() == s.filter(
            |pt: WeightedPoint2| cells.contains(spec_cell(pt, ox, oy, g)),
        ).to_multiset(),
    decreases cells.len(),
{
    broadcast use vstd::seq_lib::group_to_multiset_ensures;

    let rfull = |pt: WeightedPoint2| cells.contains(spec_cell(pt, ox, oy, g));
    if cells.len() == 0 {
        if s.filter(rfull).len() > 0 {
            s.lemma_filter_pred(rfull, 0);
        }
        assert(gathered(cells, s, ox, oy, g).to_multiset() =~= s.filter(rfull).to_multiset());
    } else {
        let c = cells.last();
        let rest = cells.drop_last();
        assert(rest.no_duplicates());
        assert(!rest.contains(c)) by {
            if rest.contains(c) {
                let i = choose|i: int| 0 <= i < rest.len() && rest[i] == c;
                assert(cells[i] == cells[cells.len() - 1]);
            }
        }
        lemma_gathered_partition(rest, s, ox, oy, g);
        let p = |pt: WeightedPoint2| rest.contains(spec_cell(pt, ox, oy, g));
        let q = |pt: WeightedPoint2| spec_cell(pt, ox, oy, g) == (c.0, c.1);
        assert(forall|pt: WeightedPoint2| !(#[trigger] p(pt) && #[trigger] q(pt))) by {
            assert forall|pt: WeightedPoint2| !(#[trigger] p(pt) && #[trigger] q(pt)) by {
                if p(pt) && q(pt) {
                    assert((c.0, c.1) == c);
                    assert(rest.contains(c));
                }
            }
        }
        assert(forall|pt: WeightedPoint2| #[trigger] rfull(pt) <==> (p(pt) || q(pt))) by {
            assert forall|pt: WeightedPoint2| #[trigger] rfull(pt) <==> (p(pt) || q(pt)) by {
                let cc = spec_cell(pt, ox, oy, g);
                assert((c.0, c.1) == c);
                if cells.contains(cc) {
                    let i = choose|i: int| 0 <= i < cells.len() && cells[i] == cc;
                    if i < cells.len() - 1 {
                        assert(rest[i] == cc);
                    }
                }
                if rest.contains(cc) {
                    let i = choose|i: int| 0 <= i < rest.len() && rest[i] == cc;
                    assert(cells[i] == cc);
                }
                if cc == c {
                    assert(cells[cells.len() - 1] == cc);
                }
            }
        }
        lemma_filter_partition_disjoint(s, p, q, rfull);
        lemma_concat_to_multiset(
            gathered(rest, s, ox, oy, g),
            bin_points(s, ox, oy, g, c.0, c.1),
        );
        assert(gathered(cells, s, ox, oy, g).to_multiset() =~= s.filter(rfull).to_multiset());
    }
}

/// Every point's cell is an occupied cell of the index, and its bin holds
/// the point.
pub proof fn lemma_point_cell_occupied(idx: GridIndex, j: int)
    requires
        idx.wf(),
        0 <= j < idx.points@.len(),
    ensures
        idx.spec_occupied().contains(
            spec_cell(idx.points@[j], idx.origin_x, idx.origin_y, idx.bin_size),
        ),
        idx.spec_bin_points(
            spec_cell(idx.points@[j], idx.origin_x, idx.origin_y, idx.bin_size).0,
            spec_cell(idx.points@[j], idx.origin_x, idx.origin_y, idx.bin_size).1,
        ).contains(idx.points@[j]),
{
    let s = idx.points@;
    let c = spec_cell(s[j], idx.origin_x, idx.origin_y, idx.bin_size);
    let pred = |pt: WeightedPoint2| spec_cell(pt, idx.origin_x, idx.origin_y, idx.bin_size) == (
        c.0,
        c.1,
    );
    lemma_min_le(s, Axis::X, j);
    lemma_min_le(s, Axis::Y, j);
    lemma_bin_nonneg(s[j].p.x, idx.origin_x, idx.bin_size);
    lemma_bin_nonneg(s[j].p.y, idx.origin_y, idx.bin_size);
    lemma_nb_covers(s, idx.origin_x, idx.bin_size, Axis::X, j);
    lemma_nb_covers(s, idx.origin_y, idx.bin_size, Axis::Y, j);
    s.lemma_filter_contains(pred, j);
    assert(idx.spec_bin_points(c.0, c.1).contains(s[j]));
    lemma_cell_seq_facts(idx.nbx as int, idx.nby as int);
    let cells = cell_seq(idx.nbx as int, idx.nby as int);
    assert(cells.contains(c));
    let t = choose|t: int| 0 <= t < cells.len() && cells[t] == c;
    let occ_pred = |cc: (int, int)| bin_points(
        s,
        idx.origin_x,
        idx.origin_y,
        idx.bin_size,
        cc.0,
        cc.1,
    ).len() > 0;
    assert(idx.spec_bin_points(c.0, c.1).len() > 0) by {
        broadcast use vstd::seq_lib::group_to_multiset_ensures;

        if idx.spec_bin_points(c.0, c.1).len() == 0 {
            assert(!idx.spec_bin_points(c.0, c.1).contains(s[j]));
        }
    }
    cells.lemma_filter_contains(occ_pred, t);
}

/// Every input point appears in exactly one bin: gathering the occupied
/// cells' bins in cluster order yields, as a multiset, exactly the input
/// points — none lost, none duplicated.
pub proof fn lemma_index_partitions_points(idx: GridIndex)
    requires
        idx.wf(),
    ensures
        gathered(
            idx.spec_occupied(),
            idx.points@,
            idx.origin_x,
            idx.origin_y,
            idx.bin_size,
        ).to_multiset() == idx.points@.to_multiset(),
{
    let s = idx.points@;
    let occ = idx.spec_occupied();
    let occ_pred = |cc: (int, int)| bin_points(
        s,
        idx.origin_x,
        idx.origin_y,
        idx.bin_size,
        cc.0,
        cc.1,
    ).len() > 0;
    lemma_cell_seq_facts(idx.nbx as int, idx.nby as int);
    lemma_filter_no_duplicates(cell_seq(idx.nbx as int, idx.nby as int), occ_pred);
    lemma_gathered_partition(occ, s, idx.origin_x, idx.origin_y, idx.bin_size);
    let rfull = |pt: WeightedPoint2| occ.contains(spec_cell(pt, idx.origin_x, idx.origin_y, idx.bin_size));
    assert forall|j: int| 0 <= j < s.len() implies rfull(#[trigger] s[j]) by {
        lemma_point_cell_occupied(idx, j);
    }
    lemma_filter_all_true(s, rfull);
}

/// Reads the coordinate of a weighted point along one axis.
fn coord_of(p: &WeightedPoint2, ax: Axis) -> (r: Dyadic)
    ensures
        r == coord(*p, ax),
{
    match ax {
        Axis::X => p.p.x,
        Axis::Y => p.p.y,
    }
}

/// Folds the per-axis minimum over the points: the grid origin.
#[verifier::loop_isolation(false)]
fn fold_min(points: &Vec<WeightedPoint2>, ax: Axis) -> (r: Dyadic)
    requires
        points@.len() > 0,
        points_wf(points@),
    ensures
        r == spec_min(points@, ax),
        r.wf(),
{
    let mut m = coord_of(&points[0], ax);
    proof {
        assert(points@.take(1)[0] == points@[0]);
    }
    let mut i: usize = 1;
    while i < points.len()
        invariant
            1 <= i <= points@.len(),
            m == spec_min(points@.take(i as int), ax),
            m.wf(),
        decreases points@.len() - i,
    {
        let c = coord_of(&points[i], ax);
        let keep = m.le(&c);
        proof {
            assert(points@.take(i as int + 1).drop_last() =~= points@.take(i as int));
            assert(points@.take(i as int + 1).last() == points@[i as int]);
        }
        if !keep {
            m = c;
        }
        i = i + 1;
    }
    proof {
        assert(points@.take(points@.len() as int) =~= points@);
    }
    m
}

/// Appends one point to the bin of its cell, creating the bin if the cell
/// was empty so far. `s` is the point sequence placed before this one.
#[verifier::loop_isolation(false)]
fn place_point(
    bins: &mut Vec<GridBin>,
    p: WeightedPoint2,
    bx: usize,
    by: usize,
    Ghost(s): Ghost<Seq<WeightedPoint2>>,
    Ghost(ox): Ghost<Dyadic>,
    Ghost(oy): Ghost<Dyadic>,
    Ghost(g): Ghost<Dyadic>,
)
    requires
        bins_ok(old(bins)@, s, ox, oy, g),
        spec_cell(p, ox, oy, g) == (bx as int, by as int),
    ensures
        bins_ok(final(bins)@, s.push(p), ox, oy, g),
{
    let ghost pred = |q: WeightedPoint2| spec_cell(q, ox, oy, g) == (bx as int, by as int);
    let mut b: usize = 0;
    while b < bins.len()
        invariant
            0 <= b <= bins@.len(),
            bins@ == old(bins)@,
            forall|k: int| 0 <= k < b ==> !((#[trigger] bins@[k]).ix == bx && bins@[k].iy == by),
        decreases bins@.len() - b,
    {
        if bins[b].ix == bx && bins[b].iy == by {
            let ghost old_bins = bins@;
            let gb = &mut bins[b];
            gb.items.push(p);
            proof {
                lemma_bins_extend_found(old_bins, bins@, s, ox, oy, g, p, bx as int, by as int, b as int);
            }
            return;
        }
        b = b + 1;
    }
    let ghost old_bins = bins@;
    let mut items: Vec<WeightedPoint2> = Vec::new();
    items.push(p);
    bins.push(GridBin { ix: bx, iy: by, items });
    proof {
        assert forall|k: int|
            0 <= k < old_bins.len() implies !((#[trigger] old_bins[k]).ix == bx && old_bins[k].iy
            == by) by {}
        lemma_bins_extend_new(old_bins, bins@, s, ox, oy, g, p, bx as int, by as int);
    }
}

/// After pushing `p` onto the bin at position `b` that already carried its
/// cell, the bins again mirror `s.push(p)`.
proof fn lemma_bins_extend_found(
    old_bins: Seq<GridBin>,
    new_bins: Seq<GridBin>,
    s: Seq<WeightedPoint2>,
    ox: Dyadic,
    oy: Dyadic,
    g: Dyadic,
    p: WeightedPoint2,
    cx: int,
    cy: int,
    b: int,
)
    requires
        bins_ok(old_bins, s, ox, oy, g),
        spec_cell(p, ox, oy, g) == (cx, cy),
        0 <= b < old_bins.len(),
        old_bins[b].ix == cx,
        old_bins[b].iy == cy,
        new_bins.len() == old_bins.len(),
        new_bins[b].ix == old_bins[b].ix,
        new_bins[b].iy == old_bins[b].iy,
        new_bins[b].items@ == old_bins[b].items@.push(p),
        forall|k: int| 0 <= k < old_bins.len() && k != b ==> new_bins[k] == old_bins[k],
    ensures
        bins_ok(new_bins, s.push(p), ox, oy, g),
{
    assert forall|k: int| 0 <= k < new_bins.len() implies {
        let gb = #[trigger] new_bins[k];
        gb.items@ == bin_points(s.push(p), ox, oy, g, gb.ix as int, gb.iy as int)
            && gb.items@.len() > 0
    } by {
        let gb = new_bins[k];
        let predk = |q: WeightedPoint2| spec_cell(q, ox, oy, g) == (gb.ix as int, gb.iy as int);
        lemma_filter_push(s, predk, p);
        if k == b {
            assert(predk(p));
        } else {
            assert(!(gb.ix == old_bins[b].ix && gb.iy == old_bins[b].iy));
            assert(!predk(p));
        }
    }
    assert forall|j: int| 0 <= j < s.push(p).len() implies has_bin_seq(
        new_bins,
        spec_bin(coord(#[trigger] s.push(p)[j], Axis::X), ox, g),
        spec_bin(coord(s.push(p)[j], Axis::Y), oy, g),
    ) by {
        if j < s.len() {
            assert(s.push(p)[j] == s[j]);
            let jx = spec_bin(coord(s[j], Axis::X), ox, g);
            let jy = spec_bin(coord(s[j], Axis::Y), oy, g);
            assert(has_bin_seq(old_bins, jx, jy));
            let w = choose|w: int|
                0 <= w < old_bins.len() && (#[trigger] old_bins[w]).ix == jx && old_bins[w].iy
                    == jy;
            assert(new_bins[w].ix == jx && new_bins[w].iy == jy);
        } else {
            assert(s.push(p)[j] == p);
            assert(new_bins[b].ix == cx && new_bins[b].iy == cy);
        }
    }
}

/// After creating a fresh bin for a cell no stored bin carried, the bins
/// again mirror `s.push(p)`.
proof fn lemma_bins_extend_new(
    old_bins: Seq<GridBin>,
    new_bins: Seq<GridBin>,
    s: Seq<WeightedPoint2>,
    ox: Dyadic,
    oy: Dyadic,
    g: Dyadic,
    p: WeightedPoint2,
    cx: int,
    cy: int,
)
    requires
        bins_ok(old_bins, s, ox, oy, g),
        spec_cell(p, ox, oy, g) == (cx, cy),
        forall|k: int| 0 <= k < old_bins.len() ==> !((#[trigger] old_bins[k]).ix == cx
            && old_bins[k].iy == cy),
        new_bins.len() == old_bins.len() + 1,
        forall|k: int| 0 <= k < old_bins.len() ==> new_bins[k] == old_bins[k],
        new_bins.last().ix == cx,
        new_bins.last().iy == cy,
        new_bins.last().items@ =~= seq![p],
    ensures
        bins_ok(new_bins, s.push(p), ox, oy, g),
{
    let pred = |q: WeightedPoint2| spec_cell(q, ox, oy, g) == (cx, cy);
    // the cell was empty in s: otherwise some stored bin would carry it
    assert(s.filter(pred).len() == 0) by {
        if s.filter(pred).len() > 0 {
            let v = s.filter(pred)[0];
            assert(s.filter(pred).contains(v));
            s.lemma_filter_contains_rev(pred, v);
            let j = choose|j: int| 0 <= j < s.len() && s[j] == v;
            s.lemma_filter_pred(pred, 0);
            assert(has_bin_seq(
                old_bins,
                spec_bin(coord(s[j], Axis::X), ox, g),
                spec_bin(coord(s[j], Axis::Y), oy, g),
            ));
        }
    }
    lemma_filter_push(s, pred, p);
    assert(new_bins.last().items@ == bin_points(s.push(p), ox, oy, g, cx, cy)) by {
        assert(s.filter(pred) =~= Seq::<WeightedPoint2>::empty());
        assert(s.push(p).filter(pred) =~= seq![p]);
    }
    assert forall|k: int| 0 <= k < new_bins.len() implies {
        let gb = #[trigger] new_bins[k];
        gb.items@ == bin_points(s.push(p), ox, oy, g, gb.ix as int, gb.iy as int)
            && gb.items@.len() > 0
    } by {
        let gb = new_bins[k];
        if k < old_bins.len() {
            let predk = |q: WeightedPoint2| spec_cell(q, ox, oy, g) == (gb.ix as int, gb.iy as int);
            lemma_filter_push(s, predk, p);
            assert(!(gb.ix == cx && gb.iy == cy));
            assert(!predk(p));
        } else {
            assert(gb == new_bins.last());
        }
    }
    assert forall|j: int| 0 <= j < s.push(p).len() implies has_bin_seq(
        new_bins,
        spec_bin(coord(#[trigger] s.push(p)[j], Axis::X), ox, g),
        spec_bin(coord(s.push(p)[j], Axis::Y), oy, g),
    ) by {
        if j < s.len() {
            assert(s.push(p)[j] == s[j]);
            let jx = spec_bin(coord(s[j], Axis::X), ox, g);
            let jy = spec_bin(coord(s[j], Axis::Y), oy, g);
            assert(has_bin_seq(old_bins, jx, jy));
            let w = choose|w: int|
                0 <= w < old_bins.len() && (#[trigger] old_bins[w]).ix == jx && old_bins[w].iy
                    == jy;
            assert(new_bins[w].ix == jx && new_bins[w].iy == jy);
        } else {
            assert(s.push(p)[j] == p);
            let w = new_bins.len() - 1;
            assert(new_bins[w].ix == cx && new_bins[w].iy == cy);
        }
    }
}

/// `(a * c) / (c * d) == a / d` for positive `c`, `d` and non-negative `a`.
pub proof fn lemma_div_cancel_factor(a: int, c: int, d: int)
    requires
        0 <= a,
        0 < c,
        0 < d,
    ensures
        (a * c) / (c * d) == a / d,
{
    assert(0 <= a * c) by (nonlinear_arith)
        requires
            0 <= a,
            0 < c,
    ;
    lemma_div_denominator(a * c, c, d);
    assert((a * c) / c == a) by {
        lemma_div_multiples_vanish(a, c);
        assert(a * c == c * a) by (nonlinear_arith);
    }
}

} // verus!
