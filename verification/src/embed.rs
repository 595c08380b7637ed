//! Min-max normalization of a 2-D embedding.
//!
//! The iterative embedding itself runs outside the engine and is not
//! deterministic; the engine receives the raw coordinates it produced,
//! in fixed-point form, and normalizes each axis independently onto
//! `[0, SCALE]`, so that the smallest coordinate lands on 0 and the
//! largest on `SCALE`.

use vstd::arithmetic::div_mod::{
    lemma_div_is_ordered, lemma_div_multiples_vanish, lemma_div_nonincreasing,
};
use vstd::prelude::*;

use crate::dist::DistanceFunctionVariants;

verus! {

/// Fixed-point denominator of a normalized coordinate: a coordinate `c`
/// stands for the real value `c / SCALE` in `[0, 1]`.
pub const SCALE: u32 = 1000000;

/// Options of an embedding request.
pub struct TsneOptions {
    pub dist: DistanceFunctionVariants,
}

/// One raw embedding coordinate pair, as handed back by the embedding
/// run, in any fixed-point units.
pub struct RawPoint {
    pub id: u128,
    pub x: i64,
    pub y: i64,
}

/// One normalized point: both coordinates in `[0, SCALE]`.
#[derive(Debug)]
pub struct EmbeddedPoint {
    pub id: u128,
    pub x: u32,
    pub y: u32,
}

/// Smallest x among the first `k` points (`k >= 1`).
pub open spec fn min_x(s: Seq<RawPoint>, k: int) -> int
    decreases k,
{
    if k <= 1 {
        s[0].x as int
    } else if s[k - 1].x < min_x(s, k - 1) {
        s[k - 1].x as int
    } else {
        min_x(s, k - 1)
    }
}

/// Largest x among the first `k` points.
pub open spec fn max_x(s: Seq<RawPoint>, k: int) -> int
    decreases k,
{
    if k <= 1 {
        s[0].x as int
    } else if s[k - 1].x > max_x(s, k - 1) {
        s[k - 1].x as int
    } else {
        max_x(s, k - 1)
    }
}

/// Smallest y among the first `k` points.
pub open spec fn min_y(s: Seq<RawPoint>, k: int) -> int
    decreases k,
{
    if k <= 1 {
        s[0].y as int
    } else if s[k - 1].y < min_y(s, k - 1) {
        s[k - 1].y as int
    } else {
        min_y(s, k - 1)
    }
}

/// Largest y among the first `k` points.
pub open spec fn max_y(s: Seq<RawPoint>, k: int) -> int
    decreases k,
{
    if k <= 1 {
        s[0].y as int
    } else if s[k - 1].y > max_y(s, k - 1) {
        s[k - 1].y as int
    } else {
        max_y(s, k - 1)
    }
}

/// What one coordinate normalizes to: `(c - min) * SCALE / (max - min)`,
/// or 0 when the axis has collapsed to a single value.
pub open spec fn norm_coord(c: int, mn: int, mx: int) -> int {
    if mx <= mn {
        0
    } else {
        (c - mn) * SCALE / (mx - mn)
    }
}

/// A normalized coordinate never leaves `[0, SCALE]`.
pub proof fn lemma_norm_coord_range(c: int, mn: int, mx: int)
    requires
        mn <= c <= mx,
    ensures
        0 <= norm_coord(c, mn, mx) <= SCALE,
        c == mn ==> norm_coord(c, mn, mx) == 0,
        c == mx && mx > mn ==> norm_coord(c, mn, mx) == SCALE,
{
    if mx > mn {
        let d = mx - mn;
        let num = (c - mn) * (SCALE as int);
        assert(num >= 0) by (nonlinear_arith)
            requires
                num == (c - mn) * (SCALE as int),
                c - mn >= 0,
        ;
        assert(num <= d * (SCALE as int)) by (nonlinear_arith)
            requires
                num == (c - mn) * (SCALE as int),
                0 <= c - mn <= d,
        ;
        vstd::arithmetic::div_mod::lemma_div_pos_is_pos(num, d);
        lemma_div_is_ordered(num, d * (SCALE as int), d);
        lemma_div_multiples_vanish(SCALE as int, d);
        if c == mn {
            assert(0 * (SCALE as int) == 0) by (nonlinear_arith);
            assert(norm_coord(c, mn, mx) == 0int / d);
        }
    }
}

/// Min-max normalizes both axes of the raw embedding onto `[0, SCALE]`.
///
/// Ids and order are preserved; each coordinate is the exact fixed-point
/// image of the min-max formula, so each axis keeps a point at 0 and one
/// at `SCALE` unless it collapsed to a single value, in which case the
/// axis maps to all zeros.
pub fn normalize_embedding(points: &Vec<RawPoint>) -> (r: Vec<EmbeddedPoint>)
    ensures
        r@.len() == points@.len(),
        forall|i: int| 0 <= i < r@.len() ==> (#[trigger] r@[i]).id == points@[i].id,
        forall|i: int|
            0 <= i < r@.len() ==> (#[trigger] r@[i]).x as int == norm_coord(
                points@[i].x as int,
                min_x(points@, points@.len() as int),
                max_x(points@, points@.len() as int),
            ) && r@[i].y as int == norm_coord(
                points@[i].y as int,
                min_y(points@, points@.len() as int),
                max_y(points@, points@.len() as int),
            ),
        forall|i: int| 0 <= i < r@.len() ==> (#[trigger] r@[i]).x <= SCALE && r@[i].y <= SCALE,
        points@.len() > 0 && max_x(points@, points@.len() as int) > min_x(
            points@,
            points@.len() as int,
        ) ==> (exists|i: int| 0 <= i < r@.len() && (#[trigger] r@[i]).x == 0) && (exists|i: int|
            0 <= i < r@.len() && (#[trigger] r@[i]).x == SCALE),
        points@.len() > 0 && max_y(points@, points@.len() as int) > min_y(
            points@,
            points@.len() as int,
        ) ==> (exists|i: int| 0 <= i < r@.len() && (#[trigger] r@[i]).y == 0) && (exists|i: int|
            0 <= i < r@.len() && (#[trigger] r@[i]).y == SCALE),
{
    let n = points.len();
    let mut out: Vec<EmbeddedPoint> = Vec::new();
    if n == 0 {
        return out;
    }

    let mut mnx: i64 = points[0].x;
    let mut mxx: i64 = points[0].x;
    let mut mny: i64 = points[0].y;
    let mut mxy: i64 = points[0].y;
    let mut imnx: usize = 0;
    let mut imxx: usize = 0;
    let mut imny: usize = 0;
    let mut imxy: usize = 0;
    let mut k: usize = 1;
    while k < n
        invariant
            1 <= k <= n,
            n == points@.len(),
            mnx == min_x(points@, k as int),
            mxx == max_x(points@, k as int),
            mny == min_y(points@, k as int),
            mxy == max_y(points@, k as int),
            imnx < k && points@[imnx as int].x == mnx,
            imxx < k && points@[imxx as int].x == mxx,
            imny < k && points@[imny as int].y == mny,
            imxy < k && points@[imxy as int].y == mxy,
        decreases n - k,
    {
        let p = &points[k];
        if p.x < mnx {
            mnx = p.x;
            imnx = k;
        }
        if p.x > mxx {
            mxx = p.x;
            imxx = k;
        }
        if p.y < mny {
            mny = p.y;
            imny = k;
        }
        if p.y > mxy {
            mxy = p.y;
            imxy = k;
        }
        k += 1;
    }

    let mut i: usize = 0;
    while i < n
        invariant
            0 <= i <= n,
            n == points@.len(),
            out@.len() == i,
            mnx == min_x(points@, n as int),
            mxx == max_x(points@, n as int),
            mny == min_y(points@, n as int),
            mxy == max_y(points@, n as int),
            forall|j: int| 0 <= j < i ==> (#[trigger] out@[j]).id == points@[j].id,
            forall|j: int|
                0 <= j < i ==> (#[trigger] out@[j]).x as int == norm_coord(
                    points@[j].x as int,
                    mnx as int,
                    mxx as int,
                ) && out@[j].y as int == norm_coord(points@[j].y as int, mny as int, mxy as int),
            forall|j: int| 0 <= j < i ==> (#[trigger] out@[j]).x <= SCALE && out@[j].y <= SCALE,
        decreases n - i,
    {
        proof {
            lemma_minmax_bounds(points@, n as int, i as int);
        }
        let p = &points[i];
        let x = norm_one(p.x, mnx, mxx);
        let y = norm_one(p.y, mny, mxy);
        out.push(EmbeddedPoint { id: p.id, x, y });
        i += 1;
    }
    proof {
        lemma_minmax_bounds(points@, n as int, imnx as int);
        lemma_minmax_bounds(points@, n as int, imxx as int);
        lemma_minmax_bounds(points@, n as int, imny as int);
        lemma_minmax_bounds(points@, n as int, imxy as int);
        if mxx > mnx {
            lemma_norm_coord_range(mnx as int, mnx as int, mxx as int);
            lemma_norm_coord_range(mxx as int, mnx as int, mxx as int);
            assert(out@[imnx as int].x == 0);
            assert(out@[imxx as int].x == SCALE);
        }
        if mxy > mny {
            lemma_norm_coord_range(mny as int, mny as int, mxy as int);
            lemma_norm_coord_range(mxy as int, mny as int, mxy as int);
            assert(out@[imny as int].y == 0);
            assert(out@[imxy as int].y == SCALE);
        }
    }
    out
}

/// Every point's coordinates lie between the axis extremes.
proof fn lemma_minmax_bounds(s: Seq<RawPoint>, k: int, i: int)
    requires
        0 <= i < k <= s.len(),
    ensures
        min_x(s, k) <= s[i].x <= max_x(s, k),
        min_y(s, k) <= s[i].y <= max_y(s, k),
    decreases k,
{
    if i < k - 1 {
        lemma_minmax_bounds(s, k - 1, i);
    }
}

/// Normalizes one coordinate; exact fixed-point arithmetic.
fn norm_one(c: i64, mn: i64, mx: i64) -> (r: u32)
    requires
        mn <= c <= mx,
    ensures
        r as int == norm_coord(c as int, mn as int, mx as int),
        r <= SCALE,
{
    if mx <= mn {
        return 0;
    }
    let nu: u128 = ((c as i128) - (mn as i128)) as u128;
    let du: u128 = ((mx as i128) - (mn as i128)) as u128;
    let q: u128 = nu * (SCALE as u128) / du;
    proof {
        lemma_norm_coord_range(c as int, mn as int, mx as int);
        assert(nu * (SCALE as u128) == (c - mn) * (SCALE as int)) by (nonlinear_arith)
            requires
                nu == c - mn,
        ;
        assert(nu * (SCALE as u128) <= 0x20000000000000000000000u128) by (nonlinear_arith)
            requires
                nu <= 0x20000000000000000u128,
        ;
    }
    q as u32
}

} // verus!
