//! The projective transform that carries one quadrilateral onto another.
use crate::algebra::{
    adj, det, diag, lemma_det_by_adj, lemma_adj_columns, lemma_diag_vec, lemma_mat_adj, lemma_mat_vec_assoc,
    lemma_mat_vec_scale, lemma_nonzero_product, lemma_scale_scale, lemma_mul_within, mat_mul, mat_vec, represents,
    scale, v3, M3, V3,
};
use vstd::arithmetic::mul::lemma_mul_is_commutative;
use vstd::prelude::*;

verus! {

/// A corner of a quadrilateral, in integer coordinates `(x, y)`.
pub type Corner = (i32, i32);

/// Four corners, clockwise: top-left, top-right, bottom-right, bottom-left.
pub type RectCorners = [Corner; 4];

/// The corner lifted to homogeneous coordinates `(x, y, 1)`.
pub open spec fn lift(c: Corner) -> V3 {
    v3(c.0 as int, c.1 as int, 1)
}

/// Twice the signed area of the triangle `p q r`; zero exactly when the three are collinear.
pub open spec fn orient(p: Corner, q: Corner, r: Corner) -> int {
    (q.0 - p.0) * (r.1 - p.1) - (q.1 - p.1) * (r.0 - p.0)
}

/// No three of the four corners are collinear (in particular no two coincide).
pub open spec fn non_degenerate(q: RectCorners) -> bool {
    &&& orient(q[0], q[1], q[2]) != 0
    &&& orient(q[0], q[1], q[3]) != 0
    &&& orient(q[0], q[2], q[3]) != 0
    &&& orient(q[1], q[2], q[3]) != 0
}

/// The matrix whose columns are the first three corners, lifted.
pub open spec fn corner_matrix(q: RectCorners) -> M3 {
    M3 {
        a: q[0].0 as int,
        b: q[1].0 as int,
        c: q[2].0 as int,
        d: q[0].1 as int,
        e: q[1].1 as int,
        f: q[2].1 as int,
        g: 1,
        h: 1,
        i: 1,
    }
}

/// Weights (up to the common factor `det(corner_matrix(q))`) that combine the first
/// three lifted corners into the fourth.
pub open spec fn basis_weights(q: RectCorners) -> V3 {
    mat_vec(adj(corner_matrix(q)), lift(q[3]))
}

/// The diagonal factor of `homography_of`.
pub open spec fn weight_diag(src: RectCorners, dst: RectCorners) -> M3 {
    let l = basis_weights(src);
    let u = basis_weights(dst);
    diag(u.x * l.y * l.z, u.y * l.x * l.z, u.z * l.x * l.y)
}

/// The homography (up to scale) from `src` onto `dst`:
/// `corner_matrix(dst) * weight_diag(src, dst) * adj(corner_matrix(src))`.
pub open spec fn homography_of(src: RectCorners, dst: RectCorners) -> M3 {
    mat_mul(corner_matrix(dst), mat_mul(weight_diag(src, dst), adj(corner_matrix(src))))
}

proof fn lemma_frame_identities(
    x0: int,
    y0: int,
    x1: int,
    y1: int,
    x2: int,
    y2: int,
    x3: int,
    y3: int,
)
    ensures
        x0 * (y1 * 1 - y2 * 1) - x1 * (y0 * 1 - y2 * 1) + x2 * (y0 * 1 - y1 * 1) == (x1 - x0) * (y2
            - y0) - (y1 - y0) * (x2 - x0),
        (y1 * 1 - y2 * 1) * x3 + (x2 * 1 - x1 * 1) * y3 + (x1 * y2 - x2 * y1) * 1 == (x2 - x1) * (y3
            - y1) - (y2 - y1) * (x3 - x1),
        (y2 * 1 - y0 * 1) * x3 + (x0 * 1 - x2 * 1) * y3 + (x2 * y0 - x0 * y2) * 1 == -((x2 - x0) * (
        y3 - y0) - (y2 - y0) * (x3 - x0)),
        (y0 * 1 - y1 * 1) * x3 + (x1 * 1 - x0 * 1) * y3 + (x0 * y1 - x1 * y0) * 1 == (x1 - x0) * (y3
            - y0) - (y1 - y0) * (x3 - x0),
{
    assert(x0 * (y1 * 1 - y2 * 1) - x1 * (y0 * 1 - y2 * 1) + x2 * (y0 * 1 - y1 * 1) == (x1 - x0) * (
    y2 - y0) - (y1 - y0) * (x2 - x0)) by (nonlinear_arith);
    assert((y1 * 1 - y2 * 1) * x3 + (x2 * 1 - x1 * 1) * y3 + (x1 * y2 - x2 * y1) * 1 == (x2 - x1) * (
    y3 - y1) - (y2 - y1) * (x3 - x1)) by (nonlinear_arith);
    assert((x2 - x0) * (y3 - y0) == x2 * y3 - x2 * y0 - x0 * y3 + x0 * y0) by (nonlinear_arith);
    assert((y2 - y0) * (x3 - x0) == x3 * y2 - x0 * y2 - x3 * y0 + x0 * y0) by (nonlinear_arith);
    assert((y2 * 1 - y0 * 1) * x3 == x3 * y2 - x3 * y0) by (nonlinear_arith);
    assert((x0 * 1 - x2 * 1) * y3 == x0 * y3 - x2 * y3) by (nonlinear_arith);
    assert((x1 - x0) * (y3 - y0) == x1 * y3 - x1 * y0 - x0 * y3 + x0 * y0) by (nonlinear_arith);
    assert((y1 - y0) * (x3 - x0) == x3 * y1 - x0 * y1 - x3 * y0 + x0 * y0) by (nonlinear_arith);
    assert((y0 * 1 - y1 * 1) * x3 == x3 * y0 - x3 * y1) by (nonlinear_arith);
    assert((x1 * 1 - x0 * 1) * y3 == x1 * y3 - x0 * y3) by (nonlinear_arith);
}

/// The determinant and the weights of a quadrilateral are its corner orientations.
pub proof fn lemma_weights_are_orientations(q: RectCorners)
    ensures
        det(corner_matrix(q)) == orient(q[0], q[1], q[2]),
        basis_weights(q).x == orient(q[1], q[2], q[3]),
        basis_weights(q).y == -orient(q[0], q[2], q[3]),
        basis_weights(q).z == orient(q[0], q[1], q[3]),
{
    lemma_frame_identities(
        q[0].0 as int,
        q[0].1 as int,
        q[1].0 as int,
        q[1].1 as int,
        q[2].0 as int,
        q[2].1 as int,
        q[3].0 as int,
        q[3].1 as int,
    );
}

proof fn lemma_weight_product(ux: int, uy: int, uz: int, lx: int, ly: int, lz: int)
    ensures
        (ux * ly * lz) * lx == (lx * ly * lz) * ux,
        (uy * lx * lz) * ly == (lx * ly * lz) * uy,
        (uz * lx * ly) * lz == (lx * ly * lz) * uz,
{
    assert((ux * ly * lz) * lx == (lx * ly * lz) * ux) by (nonlinear_arith);
    assert((uy * lx * lz) * ly == (lx * ly * lz) * uy) by (nonlinear_arith);
    assert((uz * lx * ly) * lz == (lx * ly * lz) * uz) by (nonlinear_arith);
}

proof fn lemma_nonzero_product3(a: int, b: int, c: int)
    requires
        a != 0,
        b != 0,
        c != 0,
    ensures
        a * b * c != 0,
{
    lemma_nonzero_product(a, b);
    lemma_nonzero_product(a * b, c);
}

/// `m` applied to `s` times a unit vector is `s` times a column of `m`.
proof fn lemma_mat_vec_unit(m: M3, s: int)
    ensures
        mat_vec(m, v3(s, 0, 0)) == scale(s, v3(m.a, m.d, m.g)),
        mat_vec(m, v3(0, s, 0)) == scale(s, v3(m.b, m.e, m.h)),
        mat_vec(m, v3(0, 0, s)) == scale(s, v3(m.c, m.f, m.i)),
{
    assert(mat_vec(m, v3(s, 0, 0)) == scale(s, v3(m.a, m.d, m.g))) by (nonlinear_arith);
    assert(mat_vec(m, v3(0, s, 0)) == scale(s, v3(m.b, m.e, m.h))) by (nonlinear_arith);
    assert(mat_vec(m, v3(0, 0, s)) == scale(s, v3(m.c, m.f, m.i))) by (nonlinear_arith);
}

proof fn lemma_scaled_lift_represents(s: int, c: Corner)
    requires
        s != 0,
    ensures
        represents(scale(s, lift(c)), c.0 as int, c.1 as int),
{
    lemma_mul_is_commutative(s, c.0 as int);
    lemma_mul_is_commutative(s, c.1 as int);
}

/// The homography sends the lifted `src[k]` to `scale(s, lift(dst[k]))` for a nonzero `s`.
pub proof fn lemma_corner_image(src: RectCorners, dst: RectCorners, k: int)
    requires
        non_degenerate(src),
        non_degenerate(dst),
        0 <= k < 4,
    ensures
        exists|s: int| s != 0 && mat_vec(homography_of(src, dst), lift(src[k])) == scale(s, lift(dst[k])),
{
    let a = corner_matrix(src);
    let c = corner_matrix(dst);
    let w = weight_diag(src, dst);
    let l = basis_weights(src);
    let u = basis_weights(dst);
    let n = mat_mul(w, adj(a));
    let p = lift(src[k]);
    lemma_weights_are_orientations(src);
    lemma_weights_are_orientations(dst);
    lemma_mat_vec_assoc(c, n, p);
    lemma_mat_vec_assoc(w, adj(a), p);
    lemma_adj_columns(a);
    lemma_adj_columns(c);
    let w0 = u.x * l.y * l.z;
    let w1 = u.y * l.x * l.z;
    let w2 = u.z * l.x * l.y;
    if k < 3 {
        let da = det(a);
        assert(w0 != 0 && w1 != 0 && w2 != 0) by {
            lemma_nonzero_product3(u.x, l.y, l.z);
            lemma_nonzero_product3(u.y, l.x, l.z);
            lemma_nonzero_product3(u.z, l.x, l.y);
        }
        lemma_diag_vec(w0, w1, w2, mat_vec(adj(a), p));
        assert(w1 * 0 == 0 && w0 * 0 == 0 && w2 * 0 == 0) by (nonlinear_arith);
        if k == 0 {
            assert(p == v3(a.a, a.d, a.g));
            lemma_mat_vec_unit(c, w0 * da);
            lemma_nonzero_product(w0, da);
            assert(v3(c.a, c.d, c.g) == lift(dst[0]));
            assert(mat_vec(homography_of(src, dst), p) == scale(w0 * da, lift(dst[k])));
        } else if k == 1 {
            assert(p == v3(a.b, a.e, a.h));
            lemma_mat_vec_unit(c, w1 * da);
            lemma_nonzero_product(w1, da);
            assert(v3(c.b, c.e, c.h) == lift(dst[1]));
            assert(mat_vec(homography_of(src, dst), p) == scale(w1 * da, lift(dst[k])));
        } else {
            assert(p == v3(a.c, a.f, a.i));
            lemma_mat_vec_unit(c, w2 * da);
            lemma_nonzero_product(w2, da);
            assert(v3(c.c, c.f, c.i) == lift(dst[2]));
            assert(mat_vec(homography_of(src, dst), p) == scale(w2 * da, lift(dst[k])));
        }
    } else {
        let lp = l.x * l.y * l.z;
        lemma_diag_vec(w0, w1, w2, l);
        lemma_weight_product(u.x, u.y, u.z, l.x, l.y, l.z);
        assert(mat_vec(w, l) == scale(lp, u));
        lemma_mat_vec_scale(c, lp, u);
        lemma_mat_adj(c, lift(dst[3]));
        lemma_scale_scale(lp, det(c), lift(dst[3]));
        lemma_nonzero_product3(l.x, l.y, l.z);
        lemma_nonzero_product(lp, det(c));
        assert(mat_vec(homography_of(src, dst), p) == scale(lp * det(c), lift(dst[k])));
    }
}

} // verus!

verus! {

/// Errors of the transform operations.
#[derive(Clone, Copy, Debug, PartialEq, Eq)]
pub enum TransformError {
    /// Three or more corners of a quadrilateral are collinear, or the transform sends the
    /// source origin to infinity (its bottom-right entry is zero): no normalised matrix exists.
    DegenerateQuad,
    /// No transform matrix has been derived yet.
    NotReady,
    /// An exact intermediate value does not fit in 128 bits.
    Overflow,
}

/// Largest absolute corner coordinate for which deriving a transform never overflows.
pub const CORNER_LIMIT: i32 = 4096;

pub open spec fn corners_within(q: RectCorners, k: int) -> bool {
    forall|j: int| 0 <= j < 4 ==> -k <= #[trigger] q[j].0 <= k && -k <= q[j].1 <= k
}

pub open spec fn fits(v: int) -> bool {
    i128::MIN <= v <= i128::MAX
}

pub open spec fn abs_le(v: int, k: int) -> bool {
    -k <= v <= k
}

pub open spec fn mat_within(m: M3, k: int) -> bool {
    &&& abs_le(m.a, k) && abs_le(m.b, k) && abs_le(m.c, k)
    &&& abs_le(m.d, k) && abs_le(m.e, k) && abs_le(m.f, k)
    &&& abs_le(m.g, k) && abs_le(m.h, k) && abs_le(m.i, k)
}

/// A 3x3 projective matrix `[[a, b, c], [d, e, f], [g, h, i]]`, exact and up to scale.
#[derive(Clone, Copy, Debug, PartialEq, Eq)]
pub struct TransformMatrix {
    pub a: i128,
    pub b: i128,
    pub c: i128,
    pub d: i128,
    pub e: i128,
    pub f: i128,
    pub g: i128,
    pub h: i128,
    pub i: i128,
}

impl View for TransformMatrix {
    type V = M3;

    open spec fn view(&self) -> M3 {
        M3 {
            a: self.a as int,
            b: self.b as int,
            c: self.c as int,
            d: self.d as int,
            e: self.e as int,
            f: self.f as int,
            g: self.g as int,
            h: self.h as int,
            i: self.i as int,
        }
    }
}

/// The image of a point in homogeneous coordinates: `(x / w, y / w)`, at infinity when `w == 0`.
#[derive(Clone, Copy, Debug, PartialEq, Eq)]
pub struct ProjectedPoint {
    pub x: i128,
    pub y: i128,
    pub w: i128,
}

impl View for ProjectedPoint {
    type V = V3;

    open spec fn view(&self) -> V3 {
        v3(self.x as int, self.y as int, self.w as int)
    }
}

pub(crate) fn times(a: i128, b: i128) -> (r: Result<i128, TransformError>)
    ensures
        r matches Ok(v) ==> v == a * b,
        fits(a * b) <==> r is Ok,
        r is Err ==> r == Err::<i128, TransformError>(TransformError::Overflow),
{
    match a.checked_mul(b) {
        Some(v) => Ok(v),
        None => Err(TransformError::Overflow),
    }
}

pub(crate) fn plus(a: i128, b: i128) -> (r: Result<i128, TransformError>)
    ensures
        r matches Ok(v) ==> v == a + b,
        fits(a + b) <==> r is Ok,
        r is Err ==> r == Err::<i128, TransformError>(TransformError::Overflow),
{
    match a.checked_add(b) {
        Some(v) => Ok(v),
        None => Err(TransformError::Overflow),
    }
}

pub(crate) fn minus(a: i128, b: i128) -> (r: Result<i128, TransformError>)
    ensures
        r matches Ok(v) ==> v == a - b,
        fits(a - b) <==> r is Ok,
        r is Err ==> r == Err::<i128, TransformError>(TransformError::Overflow),
{
    match a.checked_sub(b) {
        Some(v) => Ok(v),
        None => Err(TransformError::Overflow),
    }
}

/// `p * x + q * y + r * z`.
fn dot(p: i128, q: i128, r: i128, x: i128, y: i128, z: i128, Ghost(k1): Ghost<int>, Ghost(k2): Ghost<int>) -> (o: Result<i128, TransformError>)
    ensures
        o matches Ok(v) ==> v == p * x + q * y + r * z,
        o is Err ==> o == Err::<i128, TransformError>(TransformError::Overflow),
        abs_le(p as int, k1) && abs_le(q as int, k1) && abs_le(r as int, k1) && abs_le(x as int, k2)
            && abs_le(y as int, k2) && abs_le(z as int, k2) && 3 * (k1 * k2) <= i128::MAX ==> o is Ok
            && abs_le(p * x + q * y + r * z, 3 * (k1 * k2)),
{
    proof {
        if abs_le(p as int, k1) && abs_le(q as int, k1) && abs_le(r as int, k1) && abs_le(x as int, k2)
            && abs_le(y as int, k2) && abs_le(z as int, k2) {
            lemma_mul_within(p as int, x as int, k1, k2);
            lemma_mul_within(q as int, y as int, k1, k2);
            lemma_mul_within(r as int, z as int, k1, k2);
        }
    }
    let px = times(p, x)?;
    let qy = times(q, y)?;
    let rz = times(r, z)?;
    let s = plus(px, qy)?;
    plus(s, rz)
}

/// `ad - bc`.
fn cross(a: i128, d: i128, b: i128, c: i128, Ghost(k1): Ghost<int>, Ghost(k2): Ghost<int>) -> (o: Result<i128, TransformError>)
    ensures
        o matches Ok(v) ==> v == a * d - b * c,
        o is Err ==> o == Err::<i128, TransformError>(TransformError::Overflow),
        abs_le(a as int, k1) && abs_le(b as int, k1) && abs_le(c as int, k2) && abs_le(d as int, k2)
            && 2 * (k1 * k2) <= i128::MAX ==> o is Ok && abs_le(a * d - b * c, 2 * (k1 * k2)),
{
    proof {
        if abs_le(a as int, k1) && abs_le(b as int, k1) && abs_le(c as int, k2) && abs_le(d as int, k2) {
            lemma_mul_within(a as int, d as int, k1, k2);
            lemma_mul_within(b as int, c as int, k1, k2);
        }
    }
    let ad = times(a, d)?;
    let bc = times(b, c)?;
    minus(ad, bc)
}

fn mat_vec_exec(m: &TransformMatrix, x: i128, y: i128, z: i128, Ghost(k1): Ghost<int>, Ghost(k2): Ghost<int>) -> (r: Result<
    ProjectedPoint,
    TransformError,
>)
    ensures
        r matches Ok(v) ==> v@ == mat_vec(m@, v3(x as int, y as int, z as int)),
        r is Err ==> r == Err::<ProjectedPoint, TransformError>(TransformError::Overflow),
        mat_within(m@, k1) && abs_le(x as int, k2) && abs_le(y as int, k2) && abs_le(z as int, k2) && 3
            * (k1 * k2) <= i128::MAX ==> r is Ok,
{
    let rx = dot(m.a, m.b, m.c, x, y, z, Ghost(k1), Ghost(k2))?;
    let ry = dot(m.d, m.e, m.f, x, y, z, Ghost(k1), Ghost(k2))?;
    let rz = dot(m.g, m.h, m.i, x, y, z, Ghost(k1), Ghost(k2))?;
    Ok(ProjectedPoint { x: rx, y: ry, w: rz })
}

fn mat_mul_exec(m: &TransformMatrix, n: &TransformMatrix, Ghost(k1): Ghost<int>, Ghost(k2): Ghost<int>) -> (r: Result<
    TransformMatrix,
    TransformError,
>)
    ensures
        r matches Ok(p) ==> p@ == mat_mul(m@, n@),
        r is Err ==> r == Err::<TransformMatrix, TransformError>(TransformError::Overflow),
        mat_within(m@, k1) && mat_within(n@, k2) && 3 * (k1 * k2) <= i128::MAX ==> r is Ok
            && mat_within(mat_mul(m@, n@), 3 * (k1 * k2)),
{
    Ok(
        TransformMatrix {
            a: dot(m.a, m.b, m.c, n.a, n.d, n.g, Ghost(k1), Ghost(k2))?,
            b: dot(m.a, m.b, m.c, n.b, n.e, n.h, Ghost(k1), Ghost(k2))?,
            c: dot(m.a, m.b, m.c, n.c, n.f, n.i, Ghost(k1), Ghost(k2))?,
            d: dot(m.d, m.e, m.f, n.a, n.d, n.g, Ghost(k1), Ghost(k2))?,
            e: dot(m.d, m.e, m.f, n.b, n.e, n.h, Ghost(k1), Ghost(k2))?,
            f: dot(m.d, m.e, m.f, n.c, n.f, n.i, Ghost(k1), Ghost(k2))?,
            g: dot(m.g, m.h, m.i, n.a, n.d, n.g, Ghost(k1), Ghost(k2))?,
            h: dot(m.g, m.h, m.i, n.b, n.e, n.h, Ghost(k1), Ghost(k2))?,
            i: dot(m.g, m.h, m.i, n.c, n.f, n.i, Ghost(k1), Ghost(k2))?,
        },
    )
}

fn adj_exec(m: &TransformMatrix, Ghost(k): Ghost<int>) -> (r: Result<TransformMatrix, TransformError>)
    ensures
        r matches Ok(p) ==> p@ == adj(m@),
        r is Err ==> r == Err::<TransformMatrix, TransformError>(TransformError::Overflow),
        mat_within(m@, k) && 2 * (k * k) <= i128::MAX ==> r is Ok && mat_within(adj(m@), 2 * (k * k)),
{
    Ok(
        TransformMatrix {
            a: cross(m.e, m.i, m.f, m.h, Ghost(k), Ghost(k))?,
            b: cross(m.c, m.h, m.b, m.i, Ghost(k), Ghost(k))?,
            c: cross(m.b, m.f, m.c, m.e, Ghost(k), Ghost(k))?,
            d: cross(m.f, m.g, m.d, m.i, Ghost(k), Ghost(k))?,
            e: cross(m.a, m.i, m.c, m.g, Ghost(k), Ghost(k))?,
            f: cross(m.c, m.d, m.a, m.f, Ghost(k), Ghost(k))?,
            g: cross(m.d, m.h, m.e, m.g, Ghost(k), Ghost(k))?,
            h: cross(m.b, m.g, m.a, m.h, Ghost(k), Ghost(k))?,
            i: cross(m.a, m.e, m.b, m.d, Ghost(k), Ghost(k))?,
        },
    )
}

fn corner_matrix_exec(q: &RectCorners) -> (r: TransformMatrix)
    ensures
        r@ == corner_matrix(*q),
{
    TransformMatrix {
        a: q[0].0 as i128,
        b: q[1].0 as i128,
        c: q[2].0 as i128,
        d: q[0].1 as i128,
        e: q[1].1 as i128,
        f: q[2].1 as i128,
        g: 1,
        h: 1,
        i: 1,
    }
}

/// `orient(p, q, r)`, which always fits: the corners are 32-bit.
fn orient_exec(p: Corner, q: Corner, r: Corner) -> (o: i128)
    ensures
        o == orient(p, q, r),
        abs_le(o as int, 0x2_0000_0000_0000_0000),
        forall|k: int| 1 <= k && corner_abs_le(p, k) && corner_abs_le(q, k) && corner_abs_le(r, k) ==> abs_le(o as int, 8 * (k * k)),
{
    let ax = q.0 as i128 - p.0 as i128;
    let ay = q.1 as i128 - p.1 as i128;
    let bx = r.0 as i128 - p.0 as i128;
    let by = r.1 as i128 - p.1 as i128;
    proof {
        lemma_mul_within(ax as int, by as int, 0x1_0000_0000, 0x1_0000_0000);
        lemma_mul_within(ay as int, bx as int, 0x1_0000_0000, 0x1_0000_0000);
        assert forall|k: int| 1 <= k && corner_abs_le(p, k) && corner_abs_le(q, k) && corner_abs_le(r, k) implies abs_le(ax * by - ay * bx, 8 * (k * k)) by {
            lemma_mul_within(ax as int, by as int, 2 * k, 2 * k);
            lemma_mul_within(ay as int, bx as int, 2 * k, 2 * k);
            assert((2 * k) * (2 * k) == 4 * (k * k)) by (nonlinear_arith);
        }
    }
    ax * by - ay * bx
}

pub open spec fn corner_abs_le(c: Corner, k: int) -> bool {
    abs_le(c.0 as int, k) && abs_le(c.1 as int, k)
}

/// Derives the projective transform that maps `src_quad[k]` onto `dst_quad[k]` for each
/// corner `k`, exactly, as `homography_of(src_quad, dst_quad)`, whose bottom-right entry is
/// nonzero so that the matrix can be scaled to have 1 there.
pub fn build_transform(src_quad: &RectCorners, dst_quad: &RectCorners) -> (r: Result<
    TransformMatrix,
    TransformError,
>)
    ensures
        r matches Ok(h) ==> h@ == homography_of(*src_quad, *dst_quad) && h.i != 0,
        r matches Ok(h) ==> forall|k: int|
            0 <= k < 4 ==> represents(
                #[trigger] mat_vec(h@, lift(src_quad[k])),
                dst_quad[k].0 as int,
                dst_quad[k].1 as int,
            ),
        r is Ok ==> non_degenerate(*src_quad) && non_degenerate(*dst_quad),
        !non_degenerate(*src_quad) || !non_degenerate(*dst_quad) ==> r == Err::<
            TransformMatrix,
            TransformError,
        >(TransformError::DegenerateQuad),
        non_degenerate(*src_quad) && non_degenerate(*dst_quad) && corners_within(
            *src_quad,
            CORNER_LIMIT as int,
        ) && corners_within(*dst_quad, CORNER_LIMIT as int) ==> (r is Ok <==> homography_of(
            *src_quad,
            *dst_quad,
        ).i != 0) && (r is Err ==> r == Err::<TransformMatrix, TransformError>(
            TransformError::DegenerateQuad,
        )),
        r is Err ==> r == Err::<TransformMatrix, TransformError>(TransformError::DegenerateQuad) || r
            == Err::<TransformMatrix, TransformError>(TransformError::Overflow),
{
    proof {
        lemma_weights_are_orientations(*src_quad);
        lemma_weights_are_orientations(*dst_quad);
    }
    let s = src_quad;
    let d = dst_quad;
    let ghost kk: int = CORNER_LIMIT as int;
    let ghost bounded = corners_within(*s, kk) && corners_within(*d, kk);
    proof {
        if bounded {
            assert(corner_abs_le(s[0], kk) && corner_abs_le(s[1], kk) && corner_abs_le(s[2], kk) && corner_abs_le(s[3], kk));
            assert(corner_abs_le(d[0], kk) && corner_abs_le(d[1], kk) && corner_abs_le(d[2], kk) && corner_abs_le(d[3], kk));
        }
    }
    let sd = orient_exec(s[0], s[1], s[2]);
    let s013 = orient_exec(s[0], s[1], s[3]);
    let s023 = orient_exec(s[0], s[2], s[3]);
    let s123 = orient_exec(s[1], s[2], s[3]);
    let dd = orient_exec(d[0], d[1], d[2]);
    let d013 = orient_exec(d[0], d[1], d[3]);
    let d023 = orient_exec(d[0], d[2], d[3]);
    let d123 = orient_exec(d[1], d[2], d[3]);
    if sd == 0 || s013 == 0 || s023 == 0 || s123 == 0 || dd == 0 || d013 == 0 || d023 == 0 || d123 == 0 {
        return Err(TransformError::DegenerateQuad);
    }
    // basis weights of each quadrilateral, from its orientations
    let (lx, ly, lz) = (s123, -s023, s013);
    let (ux, uy, uz) = (d123, -d023, d013);
    let a = corner_matrix_exec(s);
    let c = corner_matrix_exec(d);
    let ghost ko: int = 8 * (kk * kk);
    proof {
        if bounded {
            assert(mat_within(a@, kk) && mat_within(c@, kk));
            lemma_mul_within(ux as int, ly as int, ko, ko);
            lemma_mul_within(uy as int, lx as int, ko, ko);
            lemma_mul_within(uz as int, lx as int, ko, ko);
            lemma_mul_within((ux * ly) as int, lz as int, ko * ko, ko);
            lemma_mul_within((uy * lx) as int, lz as int, ko * ko, ko);
            lemma_mul_within((uz * lx) as int, ly as int, ko * ko, ko);
        }
    }
    let adj_a = adj_exec(&a, Ghost(kk))?;
    let w0 = times(times(ux, ly)?, lz)?;
    let w1 = times(times(uy, lx)?, lz)?;
    let w2 = times(times(uz, lx)?, ly)?;
    let weights = TransformMatrix { a: w0, b: 0, c: 0, d: 0, e: w1, f: 0, g: 0, h: 0, i: w2 };
    let ghost kw: int = ko * ko * ko;
    let ghost ka: int = 2 * (kk * kk);
    let n = mat_mul_exec(&weights, &adj_a, Ghost(kw), Ghost(ka))?;
    let h = mat_mul_exec(&c, &n, Ghost(kk), Ghost(3 * (kw * ka)))?;
    if h.i == 0 {
        return Err(TransformError::DegenerateQuad);
    }
    proof {
        lemma_corner_correspondence(*src_quad, *dst_quad);
    }
    Ok(h)
}

impl TransformMatrix {
    /// Applies the matrix to the point `(p.x / p.w, p.y / p.w)` in homogeneous coordinates;
    /// a point on the vanishing line comes out with `w == 0`.
    pub fn transform_point(&self, p: &Point2D) -> (r: Result<ProjectedPoint, TransformError>)
        ensures
            r matches Ok(q) ==> q@ == mat_vec(self@, p.hom()),
            r is Err ==> r == Err::<ProjectedPoint, TransformError>(TransformError::Overflow),
            mat_within(self@, MATRIX_LIMIT as int) ==> r is Ok,
    {
        mat_vec_exec(self, p.x as i128, p.y as i128, p.w as i128, Ghost(MATRIX_LIMIT as int), Ghost(i64::MAX as int + 1))
    }
}

/// Largest absolute matrix entry for which applying the matrix never overflows.
pub const MATRIX_LIMIT: i128 = 0x4000_0000_0000_0000;

/// A point `(x / w, y / w)` given by integers; `w == 0` is a point at infinity.
#[derive(Clone, Copy, Debug, PartialEq, Eq)]
pub struct Point2D {
    pub x: i64,
    pub y: i64,
    pub w: i64,
}

impl Point2D {
    pub open spec fn hom(&self) -> V3 {
        v3(self.x as int, self.y as int, self.w as int)
    }
}

/// Each corner of `src` is carried onto the matching corner of `dst`.
pub proof fn lemma_corner_correspondence(src: RectCorners, dst: RectCorners)
    requires
        non_degenerate(src),
        non_degenerate(dst),
    ensures
        forall|k: int|
            0 <= k < 4 ==> represents(
                #[trigger] mat_vec(homography_of(src, dst), lift(src[k])),
                dst[k].0 as int,
                dst[k].1 as int,
            ),
{
    assert forall|k: int| 0 <= k < 4 implies represents(
        #[trigger] mat_vec(homography_of(src, dst), lift(src[k])),
        dst[k].0 as int,
        dst[k].1 as int,
    ) by {
        lemma_corner_image(src, dst, k);
        let s = choose|s: int|
            s != 0 && mat_vec(homography_of(src, dst), lift(src[k])) == scale(s, lift(dst[k]));
        lemma_scaled_lift_represents(s, dst[k]);
    }
}

/// The transform built with the quadrilaterals swapped carries each corner of `dst` back
/// onto the matching corner of `src`, and undoes the forward transform on the corners.
pub proof fn lemma_round_trip(src: RectCorners, dst: RectCorners)
    requires
        non_degenerate(src),
        non_degenerate(dst),
    ensures
        forall|k: int|
            0 <= k < 4 ==> represents(
                #[trigger] mat_vec(homography_of(dst, src), lift(dst[k])),
                src[k].0 as int,
                src[k].1 as int,
            ),
        forall|k: int|
            0 <= k < 4 ==> represents(
                mat_vec(homography_of(dst, src), #[trigger] mat_vec(homography_of(src, dst), lift(src[k]))),
                src[k].0 as int,
                src[k].1 as int,
            ),
{
    lemma_corner_correspondence(dst, src);
    assert forall|k: int| 0 <= k < 4 implies represents(
        mat_vec(homography_of(dst, src), #[trigger] mat_vec(homography_of(src, dst), lift(src[k]))),
        src[k].0 as int,
        src[k].1 as int,
    ) by {
        lemma_corner_image(src, dst, k);
        let s = choose|s: int|
            s != 0 && mat_vec(homography_of(src, dst), lift(src[k])) == scale(s, lift(dst[k]));
        lemma_corner_image(dst, src, k);
        let t = choose|t: int|
            t != 0 && mat_vec(homography_of(dst, src), lift(dst[k])) == scale(t, lift(src[k]));
        lemma_mat_vec_scale(homography_of(dst, src), s, lift(dst[k]));
        lemma_scale_scale(s, t, lift(src[k]));
        lemma_nonzero_product(s, t);
        lemma_scaled_lift_represents(s * t, src[k]);
    }
}

} // verus!
