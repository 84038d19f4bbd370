//! Exact 3x3 integer linear algebra, at the level of specifications.
use vstd::arithmetic::mul::{
    lemma_mul_is_associative,
    lemma_mul_is_commutative,
    lemma_mul_is_distributive_add,
    lemma_mul_is_distributive_add_other_way,
};
use vstd::prelude::*;

verus! {

/// A column vector of three integers (a point in homogeneous coordinates).
pub struct V3 {
    pub x: int,
    pub y: int,
    pub z: int,
}

/// A 3x3 integer matrix, row by row: `[[a, b, c], [d, e, f], [g, h, i]]`.
pub struct M3 {
    pub a: int,
    pub b: int,
    pub c: int,
    pub d: int,
    pub e: int,
    pub f: int,
    pub g: int,
    pub h: int,
    pub i: int,
}

pub open spec fn v3(x: int, y: int, z: int) -> V3 {
    V3 { x, y, z }
}

pub open spec fn scale(k: int, v: V3) -> V3 {
    V3 { x: k * v.x, y: k * v.y, z: k * v.z }
}

/// `m * v`.
pub open spec fn mat_vec(m: M3, v: V3) -> V3 {
    V3 {
        x: m.a * v.x + m.b * v.y + m.c * v.z,
        y: m.d * v.x + m.e * v.y + m.f * v.z,
        z: m.g * v.x + m.h * v.y + m.i * v.z,
    }
}

/// `m * n`.
pub open spec fn mat_mul(m: M3, n: M3) -> M3 {
    M3 {
        a: m.a * n.a + m.b * n.d + m.c * n.g,
        b: m.a * n.b + m.b * n.e + m.c * n.h,
        c: m.a * n.c + m.b * n.f + m.c * n.i,
        d: m.d * n.a + m.e * n.d + m.f * n.g,
        e: m.d * n.b + m.e * n.e + m.f * n.h,
        f: m.d * n.c + m.e * n.f + m.f * n.i,
        g: m.g * n.a + m.h * n.d + m.i * n.g,
        h: m.g * n.b + m.h * n.e + m.i * n.h,
        i: m.g * n.c + m.h * n.f + m.i * n.i,
    }
}

pub open spec fn diag(p: int, q: int, r: int) -> M3 {
    M3 { a: p, b: 0, c: 0, d: 0, e: q, f: 0, g: 0, h: 0, i: r }
}

pub open spec fn det(m: M3) -> int {
    m.a * (m.e * m.i - m.f * m.h) - m.b * (m.d * m.i - m.f * m.g) + m.c * (m.d * m.h - m.e * m.g)
}

/// The adjugate (transposed cofactor matrix): `m * adj(m) == det(m) * I`.
pub open spec fn adj(m: M3) -> M3 {
    M3 {
        a: m.e * m.i - m.f * m.h,
        b: m.c * m.h - m.b * m.i,
        c: m.b * m.f - m.c * m.e,
        d: m.f * m.g - m.d * m.i,
        e: m.a * m.i - m.c * m.g,
        f: m.c * m.d - m.a * m.f,
        g: m.d * m.h - m.e * m.g,
        h: m.b * m.g - m.a * m.h,
        i: m.a * m.e - m.b * m.d,
    }
}

/// The vector `v` stands for the same projective point as `(px, py, 1)`.
pub open spec fn represents(v: V3, px: int, py: int) -> bool {
    v.z != 0 && v.x == v.z * px && v.y == v.z * py
}

proof fn lemma_sum3_times(u: int, v: int, w: int, x: int)
    ensures
        (u + v + w) * x == u * x + v * x + w * x,
{
    lemma_mul_is_distributive_add_other_way(x, u + v, w);
    lemma_mul_is_distributive_add_other_way(x, u, v);
}

proof fn lemma_times_dot(p: int, a: int, b: int, c: int, x: int, y: int, z: int)
    ensures
        p * (a * x + b * y + c * z) == (p * a) * x + (p * b) * y + (p * c) * z,
{
    lemma_mul_is_distributive_add(p, a * x + b * y, c * z);
    lemma_mul_is_distributive_add(p, a * x, b * y);
    lemma_mul_is_associative(p, a, x);
    lemma_mul_is_associative(p, b, y);
    lemma_mul_is_associative(p, c, z);
}

/// One row of `(m * n) * v == m * (n * v)`.
proof fn lemma_row_assoc(
    p: int,
    q: int,
    r: int,
    a: int,
    b: int,
    c: int,
    d: int,
    e: int,
    f: int,
    g: int,
    h: int,
    i: int,
    x: int,
    y: int,
    z: int,
)
    ensures
        (p * a + q * d + r * g) * x + (p * b + q * e + r * h) * y + (p * c + q * f + r * i) * z == p
            * (a * x + b * y + c * z) + q * (d * x + e * y + f * z) + r * (g * x + h * y + i * z),
{
    lemma_sum3_times(p * a, q * d, r * g, x);
    lemma_sum3_times(p * b, q * e, r * h, y);
    lemma_sum3_times(p * c, q * f, r * i, z);
    lemma_times_dot(p, a, b, c, x, y, z);
    lemma_times_dot(q, d, e, f, x, y, z);
    lemma_times_dot(r, g, h, i, x, y, z);
}

/// One row of `m * (k * v) == k * (m * v)`.
proof fn lemma_row_scale(p: int, q: int, r: int, k: int, x: int, y: int, z: int)
    ensures
        p * (k * x) + q * (k * y) + r * (k * z) == k * (p * x + q * y + r * z),
{
    lemma_times_dot(k, p, q, r, x, y, z);
    lemma_mul_is_associative(p, k, x);
    lemma_mul_is_associative(q, k, y);
    lemma_mul_is_associative(r, k, z);
    lemma_mul_is_commutative(p, k);
    lemma_mul_is_commutative(q, k);
    lemma_mul_is_commutative(r, k);
}

/// The entries of `m * adj(m)`.
proof fn lemma_times_adj_entries(a: int, b: int, c: int, d: int, e: int, f: int, g: int, h: int, i: int)
    ensures
        a * (e * i - f * h) + b * (f * g - d * i) + c * (d * h - e * g) == a * (e * i - f * h) - b * (d * i - f * g) + c * (d * h - e * g),
        a * (c * h - b * i) + b * (a * i - c * g) + c * (b * g - a * h) == 0,
        a * (b * f - c * e) + b * (c * d - a * f) + c * (a * e - b * d) == 0,
        d * (e * i - f * h) + e * (f * g - d * i) + f * (d * h - e * g) == 0,
        d * (c * h - b * i) + e * (a * i - c * g) + f * (b * g - a * h) == a * (e * i - f * h) - b * (d * i - f * g) + c * (d * h - e * g),
        d * (b * f - c * e) + e * (c * d - a * f) + f * (a * e - b * d) == 0,
        g * (e * i - f * h) + h * (f * g - d * i) + i * (d * h - e * g) == 0,
        g * (c * h - b * i) + h * (a * i - c * g) + i * (b * g - a * h) == 0,
        g * (b * f - c * e) + h * (c * d - a * f) + i * (a * e - b * d) == a * (e * i - f * h) - b * (d * i - f * g) + c * (d * h - e * g),
{
    assert(a * (e * i - f * h) == a * e * i - a * f * h) by (nonlinear_arith);
    assert(b * (f * g - d * i) == b * f * g - b * d * i) by (nonlinear_arith);
    assert(c * (d * h - e * g) == c * d * h - c * e * g) by (nonlinear_arith);
    assert(b * (d * i - f * g) == b * d * i - b * f * g) by (nonlinear_arith);
    assert(a * (c * h - b * i) == a * c * h - a * b * i) by (nonlinear_arith);
    assert(b * (a * i - c * g) == a * b * i - b * c * g) by (nonlinear_arith);
    assert(c * (b * g - a * h) == b * c * g - a * c * h) by (nonlinear_arith);
    assert(a * (b * f - c * e) == a * b * f - a * c * e) by (nonlinear_arith);
    assert(b * (c * d - a * f) == b * c * d - a * b * f) by (nonlinear_arith);
    assert(c * (a * e - b * d) == a * c * e - b * c * d) by (nonlinear_arith);
    assert(d * (e * i - f * h) == d * e * i - d * f * h) by (nonlinear_arith);
    assert(e * (f * g - d * i) == e * f * g - d * e * i) by (nonlinear_arith);
    assert(f * (d * h - e * g) == d * f * h - e * f * g) by (nonlinear_arith);
    assert(d * (c * h - b * i) == c * d * h - b * d * i) by (nonlinear_arith);
    assert(e * (a * i - c * g) == a * e * i - c * e * g) by (nonlinear_arith);
    assert(f * (b * g - a * h) == b * f * g - a * f * h) by (nonlinear_arith);
    assert(d * (b * f - c * e) == b * d * f - c * d * e) by (nonlinear_arith);
    assert(e * (c * d - a * f) == c * d * e - a * e * f) by (nonlinear_arith);
    assert(f * (a * e - b * d) == a * e * f - b * d * f) by (nonlinear_arith);
    assert(g * (e * i - f * h) == e * g * i - f * g * h) by (nonlinear_arith);
    assert(h * (f * g - d * i) == f * g * h - d * h * i) by (nonlinear_arith);
    assert(i * (d * h - e * g) == d * h * i - e * g * i) by (nonlinear_arith);
    assert(g * (c * h - b * i) == c * g * h - b * g * i) by (nonlinear_arith);
    assert(h * (a * i - c * g) == a * h * i - c * g * h) by (nonlinear_arith);
    assert(i * (b * g - a * h) == b * g * i - a * h * i) by (nonlinear_arith);
    assert(g * (b * f - c * e) == b * f * g - c * e * g) by (nonlinear_arith);
    assert(h * (c * d - a * f) == c * d * h - a * f * h) by (nonlinear_arith);
    assert(i * (a * e - b * d) == a * e * i - b * d * i) by (nonlinear_arith);
}

/// The entries of `adj(m) * m`.
proof fn lemma_adj_times_entries(a: int, b: int, c: int, d: int, e: int, f: int, g: int, h: int, i: int)
    ensures
        (e * i - f * h) * a + (c * h - b * i) * d + (b * f - c * e) * g == a * (e * i - f * h) - b * (d * i - f * g) + c * (d * h - e * g),
        (e * i - f * h) * b + (c * h - b * i) * e + (b * f - c * e) * h == 0,
        (e * i - f * h) * c + (c * h - b * i) * f + (b * f - c * e) * i == 0,
        (f * g - d * i) * a + (a * i - c * g) * d + (c * d - a * f) * g == 0,
        (f * g - d * i) * b + (a * i - c * g) * e + (c * d - a * f) * h == a * (e * i - f * h) - b * (d * i - f * g) + c * (d * h - e * g),
        (f * g - d * i) * c + (a * i - c * g) * f + (c * d - a * f) * i == 0,
        (d * h - e * g) * a + (b * g - a * h) * d + (a * e - b * d) * g == 0,
        (d * h - e * g) * b + (b * g - a * h) * e + (a * e - b * d) * h == 0,
        (d * h - e * g) * c + (b * g - a * h) * f + (a * e - b * d) * i == a * (e * i - f * h) - b * (d * i - f * g) + c * (d * h - e * g),
{
    assert((e * i - f * h) * a == a * e * i - a * f * h) by (nonlinear_arith);
    assert((c * h - b * i) * d == c * d * h - b * d * i) by (nonlinear_arith);
    assert((b * f - c * e) * g == b * f * g - c * e * g) by (nonlinear_arith);
    assert(a * (e * i - f * h) == a * e * i - a * f * h) by (nonlinear_arith);
    assert(b * (d * i - f * g) == b * d * i - b * f * g) by (nonlinear_arith);
    assert(c * (d * h - e * g) == c * d * h - c * e * g) by (nonlinear_arith);
    assert((e * i - f * h) * b == b * e * i - b * f * h) by (nonlinear_arith);
    assert((c * h - b * i) * e == c * e * h - b * e * i) by (nonlinear_arith);
    assert((b * f - c * e) * h == b * f * h - c * e * h) by (nonlinear_arith);
    assert((e * i - f * h) * c == c * e * i - c * f * h) by (nonlinear_arith);
    assert((c * h - b * i) * f == c * f * h - b * f * i) by (nonlinear_arith);
    assert((b * f - c * e) * i == b * f * i - c * e * i) by (nonlinear_arith);
    assert((f * g - d * i) * a == a * f * g - a * d * i) by (nonlinear_arith);
    assert((a * i - c * g) * d == a * d * i - c * d * g) by (nonlinear_arith);
    assert((c * d - a * f) * g == c * d * g - a * f * g) by (nonlinear_arith);
    assert((f * g - d * i) * b == b * f * g - b * d * i) by (nonlinear_arith);
    assert((a * i - c * g) * e == a * e * i - c * e * g) by (nonlinear_arith);
    assert((c * d - a * f) * h == c * d * h - a * f * h) by (nonlinear_arith);
    assert((f * g - d * i) * c == c * f * g - c * d * i) by (nonlinear_arith);
    assert((a * i - c * g) * f == a * f * i - c * f * g) by (nonlinear_arith);
    assert((c * d - a * f) * i == c * d * i - a * f * i) by (nonlinear_arith);
    assert((d * h - e * g) * a == a * d * h - a * e * g) by (nonlinear_arith);
    assert((b * g - a * h) * d == b * d * g - a * d * h) by (nonlinear_arith);
    assert((a * e - b * d) * g == a * e * g - b * d * g) by (nonlinear_arith);
    assert((d * h - e * g) * b == b * d * h - b * e * g) by (nonlinear_arith);
    assert((b * g - a * h) * e == b * e * g - a * e * h) by (nonlinear_arith);
    assert((a * e - b * d) * h == a * e * h - b * d * h) by (nonlinear_arith);
    assert((d * h - e * g) * c == c * d * h - c * e * g) by (nonlinear_arith);
    assert((b * g - a * h) * f == b * f * g - a * f * h) by (nonlinear_arith);
    assert((a * e - b * d) * i == a * e * i - b * d * i) by (nonlinear_arith);
}

pub proof fn lemma_mat_vec_assoc(m: M3, n: M3, v: V3)
    ensures
        mat_vec(mat_mul(m, n), v) == mat_vec(m, mat_vec(n, v)),
{
    lemma_row_assoc(m.a, m.b, m.c, n.a, n.b, n.c, n.d, n.e, n.f, n.g, n.h, n.i, v.x, v.y, v.z);
    lemma_row_assoc(m.d, m.e, m.f, n.a, n.b, n.c, n.d, n.e, n.f, n.g, n.h, n.i, v.x, v.y, v.z);
    lemma_row_assoc(m.g, m.h, m.i, n.a, n.b, n.c, n.d, n.e, n.f, n.g, n.h, n.i, v.x, v.y, v.z);
}

pub proof fn lemma_mat_vec_scale(m: M3, k: int, v: V3)
    ensures
        mat_vec(m, scale(k, v)) == scale(k, mat_vec(m, v)),
{
    lemma_row_scale(m.a, m.b, m.c, k, v.x, v.y, v.z);
    lemma_row_scale(m.d, m.e, m.f, k, v.x, v.y, v.z);
    lemma_row_scale(m.g, m.h, m.i, k, v.x, v.y, v.z);
}

pub proof fn lemma_scale_scale(j: int, k: int, v: V3)
    ensures
        scale(j, scale(k, v)) == scale(j * k, v),
{
    lemma_mul_is_associative(j, k, v.x);
    lemma_mul_is_associative(j, k, v.y);
    lemma_mul_is_associative(j, k, v.z);
}

pub proof fn lemma_diag_vec(p: int, q: int, r: int, v: V3)
    ensures
        mat_vec(diag(p, q, r), v) == v3(p * v.x, q * v.y, r * v.z),
{
    assert(0 * v.x == 0 && 0 * v.y == 0 && 0 * v.z == 0) by (nonlinear_arith);
}

/// `m * adj(m) * v == det(m) * v`.
pub proof fn lemma_mat_adj(m: M3, v: V3)
    ensures
        mat_vec(m, mat_vec(adj(m), v)) == scale(det(m), v),
{
    lemma_times_adj_entries(m.a, m.b, m.c, m.d, m.e, m.f, m.g, m.h, m.i);
    lemma_mat_vec_assoc(m, adj(m), v);
    let p = mat_mul(m, adj(m));
    assert(p == diag(det(m), det(m), det(m)));
    lemma_diag_vec(det(m), det(m), det(m), v);
}

/// `adj(m)` sends each column of `m` to `det(m)` times the matching unit vector.
pub proof fn lemma_adj_columns(m: M3)
    ensures
        mat_vec(adj(m), v3(m.a, m.d, m.g)) == v3(det(m), 0, 0),
        mat_vec(adj(m), v3(m.b, m.e, m.h)) == v3(0, det(m), 0),
        mat_vec(adj(m), v3(m.c, m.f, m.i)) == v3(0, 0, det(m)),
{
    lemma_adj_times_entries(m.a, m.b, m.c, m.d, m.e, m.f, m.g, m.h, m.i);
}

proof fn lemma_times_swapped_difference(b: int, x: int, y: int)
    ensures
        b * (y - x) == -(b * (x - y)),
{
    assert(b * (y - x) == -(b * (x - y))) by (nonlinear_arith);
}

/// The determinant expanded along the first row, with cofactors taken from the adjugate.
pub proof fn lemma_det_by_adj(m: M3)
    ensures
        det(m) == m.a * adj(m).a + m.b * adj(m).d + m.c * adj(m).g,
{
    lemma_times_swapped_difference(m.b, m.d * m.i, m.f * m.g);
}

pub proof fn lemma_nonzero_product(a: int, b: int)
    requires
        a != 0,
        b != 0,
    ensures
        a * b != 0,
{
    assert(a * b != 0) by (nonlinear_arith)
        requires
            a != 0,
            b != 0,
    ;
}

} // verus!

verus! {

pub proof fn lemma_mul_within(a: int, b: int, ka: int, kb: int)
    requires
        -ka <= a <= ka,
        -kb <= b <= kb,
    ensures
        -(ka * kb) <= a * b <= ka * kb,
{
    assert(-(ka * kb) <= a * b <= ka * kb) by (nonlinear_arith)
        requires
            -ka <= a <= ka,
            -kb <= b <= kb,
    ;
}

} // verus!
