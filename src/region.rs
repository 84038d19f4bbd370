//! Membership of a point in the destination region, inflated by a margin.
use crate::algebra::lemma_mul_within;
use crate::homography::{
    abs_le, corners_within, minus, times, Corner, Point2D, RectCorners, TransformError,
};
use vstd::prelude::*;

verus! {

/// A non-negative tolerance `num / den` in destination units.
#[derive(Clone, Copy, Debug, PartialEq, Eq)]
pub struct Margin {
    pub num: i64,
    pub den: i64,
}

impl Margin {
    pub open spec fn valid(&self) -> bool {
        self.num >= 0 && self.den > 0
    }
}

/// The unit square `(0, 0), (1, 0), (1, 1), (0, 1)`.
pub open spec fn unit_square() -> RectCorners {
    [(0, 0), (1, 0), (1, 1), (0, 1)]
}

pub fn default_dst_quad() -> (r: RectCorners)
    ensures
        r == unit_square(),
{
    [(0, 0), (1, 0), (1, 1), (0, 1)]
}

pub open spec fn sq_dist(p: Corner, q: Corner) -> int {
    (q.0 - p.0) * (q.0 - p.0) + (q.1 - p.1) * (q.1 - p.1)
}

/// `t / den <= sqrt(s)`, for `den > 0` and `s >= 0`.
pub open spec fn le_sqrt(t: int, den: int, s: int) -> bool {
    t <= 0 || t * t <= s * (den * den)
}

/// With `w > 0` and `m = mn / md`: `v / w` lies in `[lo - m, lo + sqrt(len2) + m]`.
pub open spec fn in_band(v: int, w: int, lo: int, len2: int, mn: int, md: int) -> bool {
    v * md >= (lo * md - mn) * w && le_sqrt((v - lo * w) * md - mn * w, w * md, len2)
}

/// The point lies in the box anchored at the top-left corner `q[0]`, as wide as the top edge
/// and as high as the left edge, grown by `m` on every side; boundaries included. A point at
/// infinity lies nowhere.
pub open spec fn inside_quad(p: Point2D, q: RectCorners, m: Margin) -> bool {
    let s: int = if p.w < 0 { -1 } else { 1 };
    &&& p.w != 0
    &&& in_band(s * p.x, s * p.w, q[0].0 as int, sq_dist(q[0], q[1]), m.num as int, m.den as int)
    &&& in_band(s * p.y, s * p.w, q[0].1 as int, sq_dist(q[0], q[3]), m.num as int, m.den as int)
}

pub open spec fn region_of(dst_quad: Option<RectCorners>) -> RectCorners {
    match dst_quad {
        Some(q) => q,
        None => unit_square(),
    }
}

/// Largest absolute value of a point's, a margin's or a corner's components for which the
/// membership test never overflows.
pub const REGION_LIMIT: i64 = 0x10_0000;

fn in_band_exec(v: i128, w: i128, lo: i128, len2: i128, mn: i128, md: i128) -> (r: Result<
    bool,
    TransformError,
>)
    ensures
        r matches Ok(b) ==> b == in_band(v as int, w as int, lo as int, len2 as int, mn as int, md as int),
        r is Err ==> r == Err::<bool, TransformError>(TransformError::Overflow),
        abs_le(v as int, REGION_LIMIT as int) && abs_le(w as int, REGION_LIMIT as int) && abs_le(
            lo as int,
            REGION_LIMIT as int,
        ) && abs_le(mn as int, REGION_LIMIT as int) && abs_le(md as int, REGION_LIMIT as int)
            && 0 <= len2 <= 0x800_0000_0000 ==> r is Ok,
{
    let ghost l: int = REGION_LIMIT as int;
    let ghost small = abs_le(v as int, l) && abs_le(w as int, l) && abs_le(lo as int, l) && abs_le(mn as int, l) && abs_le(md as int, l) && 0 <= len2 <= 0x800_0000_0000;
    proof {
        if small {
            lemma_mul_within(v as int, md as int, l, l);
            lemma_mul_within(lo as int, md as int, l, l);
            lemma_mul_within(lo as int, w as int, l, l);
            lemma_mul_within(mn as int, w as int, l, l);
            lemma_mul_within(w as int, md as int, l, l);
            lemma_mul_within((lo * md - mn) as int, w as int, l * l + l, l);
            lemma_mul_within((v - lo * w) as int, md as int, l * l + l, l);
            lemma_mul_within((w * md) as int, (w * md) as int, l * l, l * l);
            lemma_mul_within(len2 as int, (w * md) * (w * md), 0x800_0000_0000, (l * l) * (l * l));
            let t = (v - lo * w) * md - mn * w;
            lemma_mul_within(t, t, (l * l + l) * l + l * l, (l * l + l) * l + l * l);
        }
    }
    let vm = times(v, md)?;
    let lm = times(lo, md)?;
    let low = minus(lm, mn)?;
    let loww = times(low, w)?;
    let lw = times(lo, w)?;
    let off = minus(v, lw)?;
    let offm = times(off, md)?;
    let mw = times(mn, w)?;
    let t = minus(offm, mw)?;
    let den = times(w, md)?;
    let den2 = times(den, den)?;
    let rhs = times(len2, den2)?;
    if t <= 0 {
        return Ok(vm >= loww);
    }
    let t2 = times(t, t)?;
    Ok(vm >= loww && t2 <= rhs)
}

fn sq_dist_exec(p: Corner, q: Corner) -> (r: i128)
    ensures
        r == sq_dist(p, q),
        abs_le(p.0 as int, REGION_LIMIT as int) && abs_le(p.1 as int, REGION_LIMIT as int) && abs_le(
            q.0 as int,
            REGION_LIMIT as int,
        ) && abs_le(q.1 as int, REGION_LIMIT as int) ==> 0 <= r <= 0x800_0000_0000,
{
    let dx = q.0 as i128 - p.0 as i128;
    let dy = q.1 as i128 - p.1 as i128;
    proof {
        lemma_mul_within(dx as int, dx as int, 0x1_0000_0000, 0x1_0000_0000);
        lemma_mul_within(dy as int, dy as int, 0x1_0000_0000, 0x1_0000_0000);
        assert(dx * dx >= 0 && dy * dy >= 0) by (nonlinear_arith);
        if abs_le(p.0 as int, REGION_LIMIT as int) && abs_le(p.1 as int, REGION_LIMIT as int) && abs_le(q.0 as int, REGION_LIMIT as int) && abs_le(q.1 as int, REGION_LIMIT as int) {
            lemma_mul_within(dx as int, dx as int, 0x20_0000, 0x20_0000);
            lemma_mul_within(dy as int, dy as int, 0x20_0000, 0x20_0000);
        }
    }
    dx * dx + dy * dy
}

/// All of the point's components lie within `k` in absolute value.
pub open spec fn point_within(p: Point2D, k: int) -> bool {
    abs_le(p.x as int, k) && abs_le(p.y as int, k) && abs_le(p.w as int, k)
}

pub open spec fn margin_within(m: Margin, k: int) -> bool {
    m.num <= k && m.den <= k
}

/// Whether `point` lies in the destination region (`dst_quad`, or the unit square when
/// absent) grown by `margin`; see `inside_quad`.
pub fn point_is_inside_quad(point: &Point2D, dst_quad: Option<RectCorners>, margin: &Margin) -> (r:
    Result<bool, TransformError>)
    requires
        margin.valid(),
    ensures
        r matches Ok(b) ==> b == inside_quad(*point, region_of(dst_quad), *margin),
        r is Err ==> r == Err::<bool, TransformError>(TransformError::Overflow),
        point_within(*point, REGION_LIMIT as int) && corners_within(region_of(dst_quad), REGION_LIMIT as int)
            && margin_within(*margin, REGION_LIMIT as int) ==> r is Ok,
{
    let q = match dst_quad {
        Some(q) => q,
        None => default_dst_quad(),
    };
    if point.w == 0 {
        return Ok(false);
    }
    let s: i128 = if point.w < 0 { -1 } else { 1 };
    let x = s * point.x as i128;
    let y = s * point.y as i128;
    let w = s * point.w as i128;
    proof {
        let l = REGION_LIMIT as int;
        if corners_within(q, l) {
            assert(abs_le(q[0].0 as int, l) && abs_le(q[0].1 as int, l));
            assert(abs_le(q[1].0 as int, l) && abs_le(q[1].1 as int, l));
            assert(abs_le(q[3].0 as int, l) && abs_le(q[3].1 as int, l));
        }
    }
    let width2 = sq_dist_exec(q[0], q[1]);
    let height2 = sq_dist_exec(q[0], q[3]);
    let in_x = in_band_exec(x, w, q[0].0 as i128, width2, margin.num as i128, margin.den as i128)?;
    if !in_x {
        return Ok(false);
    }
    in_band_exec(y, w, q[0].1 as i128, height2, margin.num as i128, margin.den as i128)
}

} // verus!


verus! {

proof fn lemma_in_band_wider_ratio(v: int, w: int, lo: int, len2: int, n1: int, d1: int, n2: int, d2: int)
    requires
        w > 0,
        d1 > 0,
        d2 > 0,
        n1 >= 0,
        n1 * d2 <= n2 * d1,
        in_band(v, w, lo, len2, n1, d1),
    ensures
        in_band(v, w, lo, len2, n2, d2),
{
    // lower bound: v * d1 >= (lo * d1 - n1) * w  gives  v * d2 >= (lo * d2 - n2) * w
    assert(v * d2 >= (lo * d2 - n2) * w) by (nonlinear_arith)
        requires
            w > 0,
            d1 > 0,
            d2 > 0,
            n1 * d2 <= n2 * d1,
            v * d1 >= (lo * d1 - n1) * w,
    ;
    let t1 = (v - lo * w) * d1 - n1 * w;
    let t2 = (v - lo * w) * d2 - n2 * w;
    // t2 / (w d2) <= t1 / (w d1)
    assert(t2 * d1 <= t1 * d2) by (nonlinear_arith)
        requires
            w > 0,
            n1 * d2 <= n2 * d1,
            t1 == (v - lo * w) * d1 - n1 * w,
            t2 == (v - lo * w) * d2 - n2 * w,
    ;
    if t2 > 0 {
        assert(t1 > 0) by (nonlinear_arith)
            requires
                t2 > 0,
                d1 > 0,
                d2 > 0,
                t2 * d1 <= t1 * d2,
        ;
        assert(t1 * t1 <= len2 * ((w * d1) * (w * d1)));
        assert(t2 * t2 <= len2 * ((w * d2) * (w * d2))) by (nonlinear_arith)
            requires
                t2 > 0,
                t1 > 0,
                d1 > 0,
                d2 > 0,
                w > 0,
                t2 * d1 <= t1 * d2,
                t1 * t1 <= len2 * ((w * d1) * (w * d1)),
        ;
    }
}

/// Growing the margin never excludes a point that was inside: `m1 <= m2` as fractions.
pub proof fn lemma_larger_margin_keeps_inside(p: Point2D, q: RectCorners, m1: Margin, m2: Margin)
    requires
        m1.valid(),
        m2.valid(),
        m1.num * m2.den <= m2.num * m1.den,
        inside_quad(p, q, m1),
    ensures
        inside_quad(p, q, m2),
{
    let s: int = if p.w < 0 { -1 } else { 1 };
    assert(s * p.w > 0) by (nonlinear_arith)
        requires
            p.w != 0,
            s == (if p.w < 0 { -1int } else { 1int }),
    ;
    lemma_in_band_wider_ratio(s * p.x, s * p.w, q[0].0 as int, sq_dist(q[0], q[1]), m1.num as int, m1.den as int, m2.num as int, m2.den as int);
    lemma_in_band_wider_ratio(s * p.y, s * p.w, q[0].1 as int, sq_dist(q[0], q[3]), m1.num as int, m1.den as int, m2.num as int, m2.den as int);
}

} // verus!
