//! The triangle classifiers: the exact angle-comparison point-in-triangle
//! test, the segment/triangle intersection test used on box edges, and the
//! triangle/box overlap decision that drives the tree builder.

use vstd::prelude::*;

use crate::arith::{lemma_mul_bound, lemma_mul_mono};
use crate::bbox::{spec_aabb_vertex, spec_point_in_aabb, aabb_in_range, point_in_aabb, aabb_vertices, AABB};
use crate::math::{
    in_coord_range, lemma_norm2_nonneg, plane_from_points, ray_3d_from_points,
    ray_plane_intersect, rat_vec_in_range, tri_in_range, w3_add, w3_cross, w3_dot, w3_is_zero, w3_le,
    w3_norm2, w3_scale, w3_sub, Q3, RatVec3, Triangle3d, Tval, Vec3i, W3,
};

verus! {

/// Working vector of `i128` components; all intermediate exact arithmetic of
/// the classifiers runs on these.
struct I3 {
    x: i128,
    y: i128,
    z: i128,
}

impl I3 {
    spec fn m(&self) -> W3 {
        W3 { x: self.x as int, y: self.y as int, z: self.z as int }
    }
}

fn i3_from_vec3i(v: Vec3i) -> (r: I3)
    ensures
        r.m() == v.m(),
{
    I3 { x: v.x as i128, y: v.y as i128, z: v.z as i128 }
}

fn i3_sub(u: &I3, v: &I3, Ghost(bu): Ghost<int>, Ghost(bv): Ghost<int>) -> (r: I3)
    requires
        0 <= bu,
        0 <= bv,
        w3_le(u.m(), bu),
        w3_le(v.m(), bv),
        bu + bv < 170141183460469231731687303715884105728,
    ensures
        r.m() == w3_sub(u.m(), v.m()),
        w3_le(r.m(), bu + bv),
{
    I3 { x: u.x - v.x, y: u.y - v.y, z: u.z - v.z }
}

fn i3_scale_vec(v: Vec3i, k: i128, Ghost(bv): Ghost<int>, Ghost(bk): Ghost<int>) -> (r: I3)
    requires
        0 <= bv,
        0 <= bk,
        w3_le(v.m(), bv),
        -bk <= k as int <= bk,
        bv * bk < 170141183460469231731687303715884105728,
    ensures
        r.m() == w3_scale(k as int, v.m()),
        w3_le(r.m(), bv * bk),
{
    proof {
        lemma_mul_bound(k as int, bk, v.x as int, bv);
        lemma_mul_bound(k as int, bk, v.y as int, bv);
        lemma_mul_bound(k as int, bk, v.z as int, bv);
        assert(bk * bv == bv * bk) by (nonlinear_arith);
    }
    I3 { x: k * v.x as i128, y: k * v.y as i128, z: k * v.z as i128 }
}

fn i3_dot(u: &I3, v: &I3, Ghost(bu): Ghost<int>, Ghost(bv): Ghost<int>) -> (r: i128)
    requires
        0 <= bu,
        0 <= bv,
        w3_le(u.m(), bu),
        w3_le(v.m(), bv),
        3 * (bu * bv) < 170141183460469231731687303715884105728,
    ensures
        r as int == w3_dot(u.m(), v.m()),
        -(3 * (bu * bv)) <= r as int <= 3 * (bu * bv),
{
    proof {
        lemma_mul_mono(bu, bu, bv, bv);
        lemma_mul_bound(u.x as int, bu, v.x as int, bv);
        lemma_mul_bound(u.y as int, bu, v.y as int, bv);
        lemma_mul_bound(u.z as int, bu, v.z as int, bv);
    }
    u.x * v.x + u.y * v.y + u.z * v.z
}

fn i3_is_zero(u: &I3) -> (r: bool)
    ensures
        r == w3_is_zero(u.m()),
{
    u.x == 0 && u.y == 0 && u.z == 0
}

/// Whether `a * sqrt(s) > b * sqrt(t)`, for non-negative `s` and `t`, decided
/// without ever taking a root: by the signs of `a` and `b` and a comparison
/// of `a*a*s` against `b*b*t`. This is how the point-in-triangle test
/// compares cosines of angles exactly.
pub open spec fn spec_sqrt_cmp_gt(a: int, s: int, b: int, t: int) -> bool {
    if a >= 0 && b < 0 {
        true
    } else if a < 0 && b >= 0 {
        false
    } else if a >= 0 {
        a * a * s > b * b * t
    } else {
        a * a * s < b * b * t
    }
}

/// Decide `a * sqrt(s) > b * sqrt(t)` exactly, within the magnitude budget of
/// the point-in-triangle test.
fn sqrt_cmp_gt(a: i128, s: i128, b: i128, t: i128) -> (r: bool)
    requires
        -9007199254740992 <= a <= 9007199254740992,
        0 <= s <= 1048576,
        -1048576 <= b <= 1048576,
        0 <= t <= 19342813113834066795298816,
    ensures
        r == spec_sqrt_cmp_gt(a as int, s as int, b as int, t as int),
{
    if a >= 0 && b < 0 {
        true
    } else if a < 0 && b >= 0 {
        false
    } else {
        proof {
            lemma_mul_bound(a as int, 9007199254740992, a as int, 9007199254740992);
            assert(9007199254740992 * 9007199254740992 == 81129638414606681695789005144064)
                by (nonlinear_arith);
            lemma_mul_bound(
                (a as int) * (a as int),
                81129638414606681695789005144064,
                s as int,
                1048576,
            );
            assert(81129638414606681695789005144064 * 1048576
                == 85070591730234615865843651857942052864) by (nonlinear_arith);
            lemma_mul_bound(b as int, 1048576, b as int, 1048576);
            assert(1048576 * 1048576 == 1099511627776) by (nonlinear_arith);
            lemma_mul_bound(
                (b as int) * (b as int),
                1099511627776,
                t as int,
                19342813113834066795298816,
            );
            assert(1099511627776 * 19342813113834066795298816
                == 21267647932558653966460912964485513216) by (nonlinear_arith);
        }
        let lhs: i128 = a * a * s;
        let rhs: i128 = b * b * t;
        if a >= 0 {
            lhs > rhs
        } else {
            lhs < rhs
        }
    }
}

/// The angle-comparison point-in-triangle test at the exact rational point
/// `p` (numerators over a positive denominator), for the triangle `(a, b, c)`.
///
/// It compares, at vertices `a` and `b`, the cosine of the angle the point
/// makes with each adjacent edge against the cosine of the triangle's own
/// corner angle; the point is inside exactly when all four comparisons are
/// strict. Cosines are compared exactly through [`spec_sqrt_cmp_gt`] on dot
/// products and squared lengths of the (denominator-scaled) difference
/// vectors. A degenerate triangle, or a point coinciding with `a` or `b`,
/// makes some direction vector zero and the test false, as dividing by its
/// vanishing length would.
pub open spec fn spec_point_in_tri(p: Q3, a: W3, b: W3, c: W3) -> bool {
    let ab = w3_sub(b, a);
    let ba = w3_sub(a, b);
    let ac = w3_sub(c, a);
    let bc = w3_sub(c, b);
    let ap = w3_sub(p.nums(), w3_scale(p.den, a));
    let bp = w3_sub(p.nums(), w3_scale(p.den, b));
    &&& !w3_is_zero(ab)
    &&& !w3_is_zero(ac)
    &&& !w3_is_zero(bc)
    &&& !w3_is_zero(ap)
    &&& !w3_is_zero(bp)
    &&& spec_sqrt_cmp_gt(w3_dot(ap, ab), w3_norm2(ac), w3_dot(ab, ac), w3_norm2(ap))
    &&& spec_sqrt_cmp_gt(w3_dot(ap, ac), w3_norm2(ab), w3_dot(ab, ac), w3_norm2(ap))
    &&& spec_sqrt_cmp_gt(w3_dot(bp, ba), w3_norm2(bc), w3_dot(ba, bc), w3_norm2(bp))
    &&& spec_sqrt_cmp_gt(w3_dot(bp, bc), w3_norm2(ba), w3_dot(ba, bc), w3_norm2(bp))
}

/// Whether the rational point `p`, assumed coplanar with the triangle, lies
/// strictly inside it, by exact angle comparisons (see [`spec_point_in_tri`]).
pub fn point_in_tri(p: &RatVec3, tri: &[Vec3i; 3]) -> (r: bool)
    requires
        rat_vec_in_range(p@),
        in_coord_range(tri[0]),
        in_coord_range(tri[1]),
        in_coord_range(tri[2]),
    ensures
        r == spec_point_in_tri(p@, tri[0].m(), tri[1].m(), tri[2].m()),
{
    let a = tri[0];
    let b = tri[1];
    let c = tri[2];
    let pn = I3 { x: p.x, y: p.y, z: p.z };
    proof {
        assert(256 * 1073741824 == 274877906944) by (nonlinear_arith);
    }
    let av = i3_from_vec3i(a);
    let bv = i3_from_vec3i(b);
    let cv = i3_from_vec3i(c);
    let ab = i3_sub(&bv, &av, Ghost(256), Ghost(256));
    let ba = i3_sub(&av, &bv, Ghost(256), Ghost(256));
    let ac = i3_sub(&cv, &av, Ghost(256), Ghost(256));
    let bc = i3_sub(&cv, &bv, Ghost(256), Ghost(256));
    let ascaled = i3_scale_vec(a, p.den, Ghost(256), Ghost(1073741824));
    let bscaled = i3_scale_vec(b, p.den, Ghost(256), Ghost(1073741824));
    let ap = i3_sub(&pn, &ascaled, Ghost(1099511627776), Ghost(274877906944));
    let bp = i3_sub(&pn, &bscaled, Ghost(1099511627776), Ghost(274877906944));
    if i3_is_zero(&ab) || i3_is_zero(&ac) || i3_is_zero(&bc) || i3_is_zero(&ap) || i3_is_zero(&bp) {
        return false;
    }
    proof {
        assert(1374389534720 * 512 == 703687441776640) by (nonlinear_arith);
        assert(1374389534720 * 1374389534720 == 1888946593147858085478400) by (nonlinear_arith);
        assert(512 * 512 == 262144) by (nonlinear_arith);
        lemma_norm2_nonneg(ap.m());
        lemma_norm2_nonneg(bp.m());
        lemma_norm2_nonneg(ab.m());
        lemma_norm2_nonneg(ba.m());
        lemma_norm2_nonneg(ac.m());
        lemma_norm2_nonneg(bc.m());
    }
    let dot_ap_ab: i128 = i3_dot(&ap, &ab, Ghost(1374389534720), Ghost(512));
    let dot_ap_ac: i128 = i3_dot(&ap, &ac, Ghost(1374389534720), Ghost(512));
    let dot_ab_ac: i128 = i3_dot(&ab, &ac, Ghost(512), Ghost(512));
    let dot_bp_ba: i128 = i3_dot(&bp, &ba, Ghost(1374389534720), Ghost(512));
    let dot_bp_bc: i128 = i3_dot(&bp, &bc, Ghost(1374389534720), Ghost(512));
    let dot_ba_bc: i128 = i3_dot(&ba, &bc, Ghost(512), Ghost(512));
    let n2_ap: i128 = i3_dot(&ap, &ap, Ghost(1374389534720), Ghost(1374389534720));
    let n2_bp: i128 = i3_dot(&bp, &bp, Ghost(1374389534720), Ghost(1374389534720));
    let n2_ab: i128 = i3_dot(&ab, &ab, Ghost(512), Ghost(512));
    let n2_ba: i128 = i3_dot(&ba, &ba, Ghost(512), Ghost(512));
    let n2_ac: i128 = i3_dot(&ac, &ac, Ghost(512), Ghost(512));
    let n2_bc: i128 = i3_dot(&bc, &bc, Ghost(512), Ghost(512));
    let c1 = sqrt_cmp_gt(dot_ap_ab, n2_ac, dot_ab_ac, n2_ap);
    let c2 = sqrt_cmp_gt(dot_ap_ac, n2_ab, dot_ab_ac, n2_ap);
    let c3 = sqrt_cmp_gt(dot_bp_ba, n2_bc, dot_ba_bc, n2_bp);
    let c4 = sqrt_cmp_gt(dot_bp_bc, n2_ba, dot_ba_bc, n2_bp);
    c1 && c2 && c3 && c4
}

/// Comparing the cosine a point direction makes along its own carrier edge:
/// when the direction from a vertex to the point is a positive multiple `s`
/// of an edge direction, the angle comparison against that edge's other side
/// is an exact tie, and the strict test fails.
proof fn lemma_parallel_cmp_not_gt(s: int, bq: int, sq: int)
    requires
        s > 0,
        sq >= 0,
    ensures
        !spec_sqrt_cmp_gt(s * bq, sq, bq, (s * s) * sq),
{
    if bq >= 0 {
        assert(s * bq >= 0) by (nonlinear_arith)
            requires
                s > 0,
                bq >= 0,
        ;
        assert((s * bq) * (s * bq) * sq == bq * bq * ((s * s) * sq)) by (nonlinear_arith);
    } else {
        assert(s * bq < 0) by (nonlinear_arith)
            requires
                s > 0,
                bq < 0,
        ;
        assert((s * bq) * (s * bq) * sq == bq * bq * ((s * s) * sq)) by (nonlinear_arith);
    }
}

proof fn lemma_dot_scale_left(s: int, u: W3, v: W3)
    ensures
        w3_dot(w3_scale(s, u), v) == s * w3_dot(u, v),
{
    assert((s * u.x) * v.x == s * (u.x * v.x)) by (nonlinear_arith);
    assert((s * u.y) * v.y == s * (u.y * v.y)) by (nonlinear_arith);
    assert((s * u.z) * v.z == s * (u.z * v.z)) by (nonlinear_arith);
    assert(s * (u.x * v.x) + s * (u.y * v.y) + s * (u.z * v.z) == s * (u.x * v.x + u.y * v.y + u.z
        * v.z)) by (nonlinear_arith);
}

proof fn lemma_dot_comm(u: W3, v: W3)
    ensures
        w3_dot(u, v) == w3_dot(v, u),
{
    assert(u.x * v.x == v.x * u.x) by (nonlinear_arith);
    assert(u.y * v.y == v.y * u.y) by (nonlinear_arith);
    assert(u.z * v.z == v.z * u.z) by (nonlinear_arith);
}

proof fn lemma_scale_zero(u: W3)
    ensures
        w3_is_zero(w3_scale(0, u)),
{
    assert(0 * u.x == 0) by (nonlinear_arith);
    assert(0 * u.y == 0) by (nonlinear_arith);
    assert(0 * u.z == 0) by (nonlinear_arith);
}

proof fn lemma_norm2_scale(s: int, u: W3)
    ensures
        w3_norm2(w3_scale(s, u)) == (s * s) * w3_norm2(u),
{
    assert((s * u.x) * (s * u.x) == (s * s) * (u.x * u.x)) by (nonlinear_arith);
    assert((s * u.y) * (s * u.y) == (s * s) * (u.y * u.y)) by (nonlinear_arith);
    assert((s * u.z) * (s * u.z) == (s * s) * (u.z * u.z)) by (nonlinear_arith);
    assert((s * s) * (u.x * u.x) + (s * s) * (u.y * u.y) + (s * s) * (u.z * u.z) == (s * s) * (u.x
        * u.x + u.y * u.y + u.z * u.z)) by (nonlinear_arith);
}

/// Boundary convention at edge `a`-`b`: a rational point lying exactly on the
/// closed edge from `a` to `b` (`p = a + (s/den) * (b - a)` with
/// `0 <= s <= den`) is classified as outside the triangle — the strict angle
/// comparison at the opposite side is an exact tie there.
pub proof fn lemma_edge_ab_point_excluded(p: Q3, a: W3, b: W3, c: W3, s: int)
    requires
        p.den > 0,
        0 <= s <= p.den,
        p.nums() == w3_add(w3_scale(p.den, a), w3_scale(s, w3_sub(b, a))),
    ensures
        !spec_point_in_tri(p, a, b, c),
{
    let ab = w3_sub(b, a);
    let ap = w3_sub(p.nums(), w3_scale(p.den, a));
    assert(ap == w3_scale(s, ab));
    if s == 0 {
        lemma_scale_zero(ab);
        assert(w3_is_zero(ap));
    } else {
        lemma_dot_scale_left(s, ab, w3_sub(c, a));
        lemma_norm2_scale(s, ab);
        lemma_norm2_nonneg(ab);
        lemma_parallel_cmp_not_gt(s, w3_dot(ab, w3_sub(c, a)), w3_norm2(ab));
        assert(w3_dot(ap, w3_sub(c, a)) == s * w3_dot(ab, w3_sub(c, a)));
        assert(w3_norm2(ap) == (s * s) * w3_norm2(ab));
        assert(!spec_sqrt_cmp_gt(
            w3_dot(ap, w3_sub(c, a)),
            w3_norm2(ab),
            w3_dot(ab, w3_sub(c, a)),
            w3_norm2(ap),
        ));
    }
}

/// Boundary convention at edge `a`-`c`: a point exactly on the closed edge
/// from `a` to `c` is classified as outside.
pub proof fn lemma_edge_ac_point_excluded(p: Q3, a: W3, b: W3, c: W3, s: int)
    requires
        p.den > 0,
        0 <= s <= p.den,
        p.nums() == w3_add(w3_scale(p.den, a), w3_scale(s, w3_sub(c, a))),
    ensures
        !spec_point_in_tri(p, a, b, c),
{
    let ac = w3_sub(c, a);
    let ap = w3_sub(p.nums(), w3_scale(p.den, a));
    assert(ap == w3_scale(s, ac));
    if s == 0 {
        lemma_scale_zero(ac);
        assert(w3_is_zero(ap));
    } else {
        lemma_dot_scale_left(s, ac, w3_sub(b, a));
        lemma_norm2_scale(s, ac);
        lemma_norm2_nonneg(ac);
        lemma_parallel_cmp_not_gt(s, w3_dot(ac, w3_sub(b, a)), w3_norm2(ac));
        assert(w3_dot(ap, w3_sub(b, a)) == s * w3_dot(ac, w3_sub(b, a)));
        assert(w3_norm2(ap) == (s * s) * w3_norm2(ac));
        lemma_dot_comm(w3_sub(b, a), ac);
        assert(w3_dot(w3_sub(b, a), w3_sub(c, a)) == w3_dot(ac, w3_sub(b, a)));
        assert(!spec_sqrt_cmp_gt(
            w3_dot(ap, w3_sub(b, a)),
            w3_norm2(ac),
            w3_dot(w3_sub(b, a), ac),
            w3_norm2(ap),
        ));
    }
}

/// Boundary convention at edge `b`-`c`: a point exactly on the closed edge
/// from `b` to `c` is classified as outside.
pub proof fn lemma_edge_bc_point_excluded(p: Q3, a: W3, b: W3, c: W3, s: int)
    requires
        p.den > 0,
        0 <= s <= p.den,
        p.nums() == w3_add(w3_scale(p.den, b), w3_scale(s, w3_sub(c, b))),
    ensures
        !spec_point_in_tri(p, a, b, c),
{
    let bc = w3_sub(c, b);
    let bp = w3_sub(p.nums(), w3_scale(p.den, b));
    assert(bp == w3_scale(s, bc));
    if s == 0 {
        lemma_scale_zero(bc);
        assert(w3_is_zero(bp));
    } else {
        lemma_dot_scale_left(s, bc, w3_sub(a, b));
        lemma_norm2_scale(s, bc);
        lemma_norm2_nonneg(bc);
        lemma_parallel_cmp_not_gt(s, w3_dot(bc, w3_sub(a, b)), w3_norm2(bc));
        assert(w3_dot(bp, w3_sub(a, b)) == s * w3_dot(bc, w3_sub(a, b)));
        assert(w3_norm2(bp) == (s * s) * w3_norm2(bc));
        lemma_dot_comm(w3_sub(a, b), bc);
        assert(w3_dot(w3_sub(a, b), w3_sub(c, b)) == w3_dot(bc, w3_sub(a, b)));
        assert(!spec_sqrt_cmp_gt(
            w3_dot(bp, w3_sub(a, b)),
            w3_norm2(bc),
            w3_dot(w3_sub(a, b), bc),
            w3_norm2(bp),
        ));
    }
}

/// Whether the segment from `p1` to `p2` crosses the triangle: its supporting
/// ray meets the triangle's plane at a parameter `t` with `0 <= t <= 1`
/// (strictly between the endpoints in the degenerate-free case) and the
/// intersection point passes the angle test. A segment parallel to the plane,
/// or a degenerate triangle, never crosses.
pub open spec fn spec_line_intersects_triangle(p1: Vec3i, p2: Vec3i, t: Triangle3d) -> bool {
    let a = t.vertices[0];
    let b = t.vertices[1];
    let c = t.vertices[2];
    let n = w3_cross(w3_sub(b.m(), a.m()), w3_sub(c.m(), a.m()));
    let d = w3_dot(n, a.m());
    let dir = w3_sub(p2.m(), p1.m());
    let den = w3_dot(n, dir);
    let tn = d - w3_dot(n, p1.m());
    let nn = if den > 0 { tn } else { -tn };
    let nd = if den > 0 { den } else { -den };
    &&& den != 0
    &&& 0 <= nn <= nd
    &&& spec_point_in_tri(
        Q3 {
            x: p1.x * nd + nn * dir.x,
            y: p1.y * nd + nn * dir.y,
            z: p1.z * nd + nn * dir.z,
            den: nd,
        },
        a.m(),
        b.m(),
        c.m(),
    )
}

/// Whether the segment from `p1` to `p2` intersects the triangle strictly
/// between its endpoints' planes, with the intersection point inside the
/// triangle (see [`spec_line_intersects_triangle`]).
pub fn line_intersects_triangle(p1: Vec3i, p2: Vec3i, triangle: &Triangle3d) -> (r: bool)
    requires
        in_coord_range(p1),
        in_coord_range(p2),
        tri_in_range(*triangle),
    ensures
        r == spec_line_intersects_triangle(p1, p2, *triangle),
{
    let ray = ray_3d_from_points(p1, p2);
    let plane = plane_from_points(
        triangle.vertices[0],
        triangle.vertices[1],
        triangle.vertices[2],
    );
    let t = ray_plane_intersect(ray, plane);
    match t {
        Tval::Finite { num, den } => {
            if num >= 0 && num <= den {
                let q = ray.at(num, den);
                point_in_tri(&q, &triangle.vertices)
            } else {
                false
            }
        },
        _ => false,
    }
}

/// First corner index of box edge `e` (0 to 11), in the fixed corner winding
/// of [`spec_aabb_vertex`]: the four bottom-face edges, the four top-face
/// edges, then the four vertical edges.
pub open spec fn edge_src(e: int) -> int {
    if e < 8 {
        e % 4 + (if e < 4 { 0int } else { 4 })
    } else {
        e - 8
    }
}

/// Second corner index of box edge `e`.
pub open spec fn edge_dst(e: int) -> int {
    if e < 8 {
        (e + 1) % 4 + (if e < 4 { 0int } else { 4 })
    } else {
        (e - 2) % 4 + 4
    }
}

/// A triangle overlaps a box when a vertex of the triangle lies in the box,
/// or one of the twelve box edges crosses the triangle.
pub open spec fn spec_tri_overlaps_aabb(t: Triangle3d, bound: AABB) -> bool {
    ||| spec_point_in_aabb(t.vertices[0].m(), bound)
    ||| spec_point_in_aabb(t.vertices[1].m(), bound)
    ||| spec_point_in_aabb(t.vertices[2].m(), bound)
    ||| exists|e: int|
        0 <= e < 12 && #[trigger] spec_line_intersects_triangle(
            spec_aabb_vertex(bound, edge_src(e)),
            spec_aabb_vertex(bound, edge_dst(e)),
            t,
        )
}

/// Decide whether the triangle overlaps the box: first by vertex containment,
/// otherwise by testing the twelve box edges against the triangle.
pub fn triangle_overlaps_box(triangle: &Triangle3d, bound: AABB) -> (r: bool)
    requires
        tri_in_range(*triangle),
        aabb_in_range(bound),
    ensures
        r == spec_tri_overlaps_aabb(*triangle, bound),
{
    if point_in_aabb(triangle.vertices[0], bound) || point_in_aabb(triangle.vertices[1], bound)
        || point_in_aabb(triangle.vertices[2], bound) {
        return true;
    }
    let v = aabb_vertices(bound);
    proof {
        assert(forall|k: int|
            0 <= k < 8 ==> in_coord_range(#[trigger] spec_aabb_vertex(bound, k)));
    }
    let mut e: usize = 0;
    let mut hit = false;
    while e < 12
        invariant
            0 <= e <= 12,
            tri_in_range(*triangle),
            aabb_in_range(bound),
            forall|k: int| 0 <= k < 8 ==> v[k] == spec_aabb_vertex(bound, k),
            forall|k: int| 0 <= k < 8 ==> in_coord_range(#[trigger] spec_aabb_vertex(bound, k)),
            hit == exists|e2: int|
                0 <= e2 < e && #[trigger] spec_line_intersects_triangle(
                    spec_aabb_vertex(bound, edge_src(e2)),
                    spec_aabb_vertex(bound, edge_dst(e2)),
                    *triangle,
                ),
        decreases 12 - e,
    {
        let (s, d): (usize, usize) = if e == 0 {
            (0, 1)
        } else if e == 1 {
            (1, 2)
        } else if e == 2 {
            (2, 3)
        } else if e == 3 {
            (3, 0)
        } else if e == 4 {
            (4, 5)
        } else if e == 5 {
            (5, 6)
        } else if e == 6 {
            (6, 7)
        } else if e == 7 {
            (7, 4)
        } else if e == 8 {
            (0, 6)
        } else if e == 9 {
            (1, 7)
        } else if e == 10 {
            (2, 4)
        } else {
            (3, 5)
        };
        proof {
            assert(s as int == edge_src(e as int));
            assert(d as int == edge_dst(e as int));
            assert(v[s as int] == spec_aabb_vertex(bound, s as int));
            assert(v[d as int] == spec_aabb_vertex(bound, d as int));
        }
        let crossed = line_intersects_triangle(v[s], v[d], triangle);
        proof {
            if crossed {
                assert(spec_line_intersects_triangle(
                    spec_aabb_vertex(bound, edge_src(e as int)),
                    spec_aabb_vertex(bound, edge_dst(e as int)),
                    *triangle,
                ));
            }
        }
        hit = hit || crossed;
        e = e + 1;
    }
    hit
}

/// The subsequence of `idx` whose triangles overlap `bound`, in order.
pub open spec fn spec_filter_overlapping(
    idx: Seq<usize>,
    tris: Seq<Triangle3d>,
    bound: AABB,
) -> Seq<usize>
    decreases idx.len(),
{
    if idx.len() == 0 {
        Seq::empty()
    } else {
        let rest = spec_filter_overlapping(idx.drop_last(), tris, bound);
        if spec_tri_overlaps_aabb(tris[idx.last() as int], bound) {
            rest.push(idx.last())
        } else {
            rest
        }
    }
}

/// Among the triangles named by `indices`, those that overlap `bound`
/// (in their original order; an index may appear in several octants'
/// results when its triangle straddles a shared boundary).
pub fn find_triangles_within_bound(
    triangles: &Vec<Triangle3d>,
    indices: &Vec<usize>,
    bound: AABB,
) -> (r: Vec<usize>)
    requires
        forall|i: int| 0 <= i < triangles@.len() ==> tri_in_range(#[trigger] triangles@[i]),
        forall|j: int| 0 <= j < indices@.len() ==> (#[trigger] indices@[j]) < triangles@.len(),
        aabb_in_range(bound),
    ensures
        r@ == spec_filter_overlapping(indices@, triangles@, bound),
{
    let mut contained: Vec<usize> = Vec::new();
    let mut j: usize = 0;
    while j < indices.len()
        invariant
            forall|i: int| 0 <= i < triangles@.len() ==> tri_in_range(#[trigger] triangles@[i]),
            forall|jj: int|
                0 <= jj < indices@.len() ==> (#[trigger] indices@[jj]) < triangles@.len(),
            aabb_in_range(bound),
            0 <= j <= indices@.len(),
            contained@ == spec_filter_overlapping(indices@.take(j as int), triangles@, bound),
        decreases indices@.len() - j,
    {
        let idx = indices[j];
        let hit = triangle_overlaps_box(&triangles[idx], bound);
        proof {
            assert(indices@.take(j as int + 1).drop_last() =~= indices@.take(j as int));
            assert(indices@.take(j as int + 1).last() == indices@[j as int]);
        }
        if hit {
            contained.push(idx);
        }
        j = j + 1;
    }
    proof {
        assert(indices@.take(indices@.len() as int) =~= indices@);
    }
    contained
}

/// A named triangle that overlaps the bound survives the filter.
pub proof fn lemma_filter_overlapping_keeps(
    idx: Seq<usize>,
    tris: Seq<Triangle3d>,
    bound: AABB,
    i: usize,
)
    requires
        idx.contains(i),
        spec_tri_overlaps_aabb(tris[i as int], bound),
    ensures
        spec_filter_overlapping(idx, tris, bound).contains(i),
    decreases idx.len(),
{
    if idx.len() > 0 {
        let rest = spec_filter_overlapping(idx.drop_last(), tris, bound);
        if idx.last() == i {
            assert(spec_filter_overlapping(idx, tris, bound) == rest.push(i));
            assert(rest.push(i)[rest.len() as int] == i);
        } else {
            let k = choose|k: int| 0 <= k < idx.len() && idx[k] == i;
            assert(idx.drop_last()[k] == i);
            assert(idx.drop_last().contains(i));
            lemma_filter_overlapping_keeps(idx.drop_last(), tris, bound, i);
            let k2 = choose|k2: int| 0 <= k2 < rest.len() && rest[k2] == i;
            if spec_tri_overlaps_aabb(tris[idx.last() as int], bound) {
                assert(rest.push(idx.last())[k2] == i);
            }
        }
    }
}

/// Every index the filter returns came from the input index list.
pub proof fn lemma_filter_overlapping_subset(idx: Seq<usize>, tris: Seq<Triangle3d>, bound: AABB)
    ensures
        forall|k: int|
            0 <= k < spec_filter_overlapping(idx, tris, bound).len() ==> idx.contains(
                #[trigger] spec_filter_overlapping(idx, tris, bound)[k],
            ),
    decreases idx.len(),
{
    if idx.len() > 0 {
        lemma_filter_overlapping_subset(idx.drop_last(), tris, bound);
        let rest = spec_filter_overlapping(idx.drop_last(), tris, bound);
        assert forall|k: int| 0 <= k < rest.len() implies idx.contains(rest[k]) by {
            assert(idx.drop_last().contains(rest[k]));
            let k2 = choose|k2: int| 0 <= k2 < idx.drop_last().len() && idx.drop_last()[k2] == rest[k];
            assert(idx[k2] == rest[k]);
        }
        if spec_tri_overlaps_aabb(tris[idx.last() as int], bound) {
            let all = rest.push(idx.last());
            assert forall|k: int| 0 <= k < all.len() implies idx.contains(all[k]) by {
                if k < rest.len() {
                    assert(all[k] == rest[k]);
                } else {
                    assert(all[k] == idx.last());
                    assert(idx[idx.len() - 1] == idx.last());
                }
            }
        }
    }
}

} // verus!
