//! Geometry primitives: points on the integer grid, rays, implicit planes,
//! and the exact rational intersection parameter of a ray with a plane.
//!
//! All geometry in this crate lives on an integer coordinate grid bounded by
//! [`MAX_COORD`]; that budget is what lets every intermediate product of the
//! exact intersection tests fit in `i128`, so the whole pipeline is computed
//! without rounding. A host working in floating point quantizes its mesh onto
//! this grid before handing it to the library.

use vstd::prelude::*;

use crate::arith::lemma_mul_bound;

verus! {

/// Largest coordinate magnitude the library accepts, in grid units.
pub const MAX_COORD: i64 = 256;

/// Bound on the normal components of a plane built from in-range points:
/// a cross product of two difference vectors, `2 * (2 * MAX_COORD)^2`.
pub const PLANE_N_BOUND: i64 = 8 * 256 * 256;

/// Bound on the offset `d` of such a plane: `3 * PLANE_N_BOUND * MAX_COORD`.
pub const PLANE_D_BOUND: i64 = 24 * 256 * 256 * 256;

/// Bound on the numerator and denominator of a ray/plane intersection
/// parameter: `PLANE_D_BOUND + 3 * PLANE_N_BOUND * MAX_COORD`.
pub const T_BOUND: i64 = 48 * 256 * 256 * 256;

/// Bound on the numerators of a rational point produced by evaluating a ray
/// at such a parameter: `MAX_COORD * T_BOUND + T_BOUND * 2 * MAX_COORD`.
pub const RAT_NUM_BOUND: i128 = 768 * 48 * 256 * 256 * 256;

/// Bound on the denominator of such a rational point.
pub const RAT_DEN_BOUND: i128 = 48 * 256 * 256 * 256;

/// A point or direction on the integer grid.
#[derive(Clone, Copy, Debug, PartialEq, Eq, Structural)]
pub struct Vec3i {
    pub x: i64,
    pub y: i64,
    pub z: i64,
}

/// Mathematical (unbounded) integer vector: the model of `Vec3i` and of all
/// intermediate vector quantities.
pub ghost struct W3 {
    pub x: int,
    pub y: int,
    pub z: int,
}

impl Vec3i {
    pub fn new(x: i64, y: i64, z: i64) -> (r: Vec3i)
        ensures
            r == (Vec3i { x, y, z }),
    {
        Vec3i { x, y, z }
    }

    /// The mathematical vector this grid point stands for.
    pub open spec fn m(self) -> W3 {
        W3 { x: self.x as int, y: self.y as int, z: self.z as int }
    }
}

/// Every coordinate within `-b ..= b`.
pub open spec fn w3_le(u: W3, b: int) -> bool {
    &&& -b <= u.x <= b
    &&& -b <= u.y <= b
    &&& -b <= u.z <= b
}

/// The point lies on the library's coordinate grid.
pub open spec fn in_coord_range(v: Vec3i) -> bool {
    w3_le(v.m(), MAX_COORD as int)
}

pub open spec fn w3_sub(u: W3, v: W3) -> W3 {
    W3 { x: u.x - v.x, y: u.y - v.y, z: u.z - v.z }
}

pub open spec fn w3_dot(u: W3, v: W3) -> int {
    u.x * v.x + u.y * v.y + u.z * v.z
}

pub open spec fn w3_cross(u: W3, v: W3) -> W3 {
    W3 {
        x: u.y * v.z - u.z * v.y,
        y: u.z * v.x - u.x * v.z,
        z: u.x * v.y - u.y * v.x,
    }
}

/// Squared Euclidean length.
pub open spec fn w3_norm2(u: W3) -> int {
    w3_dot(u, u)
}

pub open spec fn w3_add(u: W3, v: W3) -> W3 {
    W3 { x: u.x + v.x, y: u.y + v.y, z: u.z + v.z }
}

pub open spec fn w3_scale(k: int, u: W3) -> W3 {
    W3 { x: k * u.x, y: k * u.y, z: k * u.z }
}

/// A squared length is never negative.
pub proof fn lemma_norm2_nonneg(u: W3)
    ensures
        w3_norm2(u) >= 0,
{
    crate::arith::lemma_square_nonneg(u.x);
    crate::arith::lemma_square_nonneg(u.y);
    crate::arith::lemma_square_nonneg(u.z);
}

pub open spec fn w3_is_zero(u: W3) -> bool {
    u.x == 0 && u.y == 0 && u.z == 0
}

/// A triangle given by its three vertices in mesh-local space.
#[derive(Clone, Copy, Debug, PartialEq, Eq)]
pub struct Triangle3d {
    pub vertices: [Vec3i; 3],
}

impl Triangle3d {
    pub fn new(a: Vec3i, b: Vec3i, c: Vec3i) -> (r: Triangle3d)
        ensures
            r.vertices[0] == a,
            r.vertices[1] == b,
            r.vertices[2] == c,
    {
        Triangle3d { vertices: [a, b, c] }
    }
}

/// All three vertices lie on the coordinate grid.
pub open spec fn tri_in_range(t: Triangle3d) -> bool {
    &&& in_coord_range(t.vertices[0])
    &&& in_coord_range(t.vertices[1])
    &&& in_coord_range(t.vertices[2])
}

/// A ray: origin plus all non-negative multiples of a direction.
#[derive(Clone, Copy, Debug, PartialEq, Eq, Structural)]
pub struct Ray3d {
    pub origin: Vec3i,
    pub dir: Vec3i,
}

/// Rays may have a direction of twice the coordinate budget, so that the
/// segment between any two in-range points is itself a valid ray.
pub open spec fn ray_in_range(r: Ray3d) -> bool {
    &&& in_coord_range(r.origin)
    &&& w3_le(r.dir.m(), 2 * MAX_COORD as int)
}

/// A plane in implicit form `a*x + b*y + c*z = d`.
#[derive(Clone, Copy, Debug, PartialEq, Eq, Structural)]
pub struct Plane {
    pub a: i64,
    pub b: i64,
    pub c: i64,
    pub d: i64,
}

impl Plane {
    pub open spec fn normal(self) -> W3 {
        W3 { x: self.a as int, y: self.b as int, z: self.c as int }
    }
}

/// A plane whose coefficients came from in-range points.
pub open spec fn plane_in_range(p: Plane) -> bool {
    &&& w3_le(p.normal(), PLANE_N_BOUND as int)
    &&& -PLANE_D_BOUND <= p.d <= PLANE_D_BOUND
}

/// Model of the intersection parameter `t` of a ray with a plane. It mirrors
/// the value a floating-point division would classify as: a finite rational
/// (kept with a positive denominator), a signed infinity when only the
/// denominator vanishes, and no value at all (`NaN`) for `0 / 0`.
pub ghost enum TvalModel {
    MinusInf,
    Finite { num: int, den: int },
    PlusInf,
    NaN,
}

/// Exact intersection parameter, as computed. `Finite` keeps `den > 0`.
#[derive(Clone, Copy, Debug, PartialEq, Eq, Structural)]
pub enum Tval {
    MinusInf,
    Finite { num: i64, den: i64 },
    PlusInf,
    NaN,
}

impl View for Tval {
    type V = TvalModel;

    open spec fn view(&self) -> TvalModel {
        match *self {
            Tval::MinusInf => TvalModel::MinusInf,
            Tval::Finite { num, den } => TvalModel::Finite { num: num as int, den: den as int },
            Tval::PlusInf => TvalModel::PlusInf,
            Tval::NaN => TvalModel::NaN,
        }
    }
}

/// Strict order on intersection parameters, with the comparison semantics of
/// IEEE floating point that the slab test depends on: any comparison against
/// `NaN` is false, and the infinities bound every finite value.
pub open spec fn spec_tval_lt(a: TvalModel, b: TvalModel) -> bool {
    match (a, b) {
        (TvalModel::NaN, _) => false,
        (_, TvalModel::NaN) => false,
        (TvalModel::MinusInf, TvalModel::MinusInf) => false,
        (TvalModel::MinusInf, _) => true,
        (_, TvalModel::MinusInf) => false,
        (_, TvalModel::PlusInf) => !(a is PlusInf),
        (TvalModel::PlusInf, _) => false,
        (
            TvalModel::Finite { num: n1, den: d1 },
            TvalModel::Finite { num: n2, den: d2 },
        ) => n1 * d2 < n2 * d1,
    }
}

/// The smaller parameter; a `NaN` yields the other argument, as `f32::min` does.
pub open spec fn spec_tval_min(a: TvalModel, b: TvalModel) -> TvalModel {
    if a is NaN {
        b
    } else if b is NaN {
        a
    } else if spec_tval_lt(b, a) {
        b
    } else {
        a
    }
}

/// The larger parameter; a `NaN` yields the other argument, as `f32::max` does.
pub open spec fn spec_tval_max(a: TvalModel, b: TvalModel) -> TvalModel {
    if a is NaN {
        b
    } else if b is NaN {
        a
    } else if spec_tval_lt(a, b) {
        b
    } else {
        a
    }
}

/// Well-formed parameters carry a positive denominator.
pub open spec fn tval_wf(t: TvalModel) -> bool {
    match t {
        TvalModel::Finite { num, den } => den > 0,
        _ => true,
    }
}

/// The intersection parameter of `ray` with `plane`: the exact value of
/// `(d - n . origin) / (n . dir)`, classified as a float division would be
/// when the denominator vanishes.
pub open spec fn spec_ray_plane_intersect(ray: Ray3d, plane: Plane) -> TvalModel {
    let den = w3_dot(plane.normal(), ray.dir.m());
    let num = plane.d - w3_dot(plane.normal(), ray.origin.m());
    spec_tval_classify(num, den)
}

/// The value of the division `num / den` as a float would classify it: a
/// finite rational kept with a positive denominator, a signed infinity, or no
/// value for `0 / 0`.
pub open spec fn spec_tval_classify(num: int, den: int) -> TvalModel {
    if den > 0 {
        TvalModel::Finite { num, den }
    } else if den < 0 {
        TvalModel::Finite { num: -num, den: -den }
    } else if num > 0 {
        TvalModel::PlusInf
    } else if num < 0 {
        TvalModel::MinusInf
    } else {
        TvalModel::NaN
    }
}

impl Ray3d {
    /// The point `origin + t * dir` for the finite parameter `t = num / den`,
    /// as an exact rational point.
    pub open spec fn spec_at(self, num: int, den: int) -> Q3 {
        Q3 {
            x: self.origin.x * den + num * self.dir.x,
            y: self.origin.y * den + num * self.dir.y,
            z: self.origin.z * den + num * self.dir.z,
            den: den,
        }
    }

    /// Evaluate the ray at the finite parameter `num / den`.
    pub fn at(&self, num: i64, den: i64) -> (r: RatVec3)
        requires
            ray_in_range(*self),
            0 < den <= T_BOUND,
            -T_BOUND <= num <= T_BOUND,
        ensures
            r@ == self.spec_at(num as int, den as int),
            rat_vec_in_range(r@),
    {
        proof {
            lemma_mul_bound(self.origin.x as int, MAX_COORD as int, den as int, T_BOUND as int);
            lemma_mul_bound(self.origin.y as int, MAX_COORD as int, den as int, T_BOUND as int);
            lemma_mul_bound(self.origin.z as int, MAX_COORD as int, den as int, T_BOUND as int);
            lemma_mul_bound(num as int, T_BOUND as int, self.dir.x as int, 2 * MAX_COORD as int);
            lemma_mul_bound(num as int, T_BOUND as int, self.dir.y as int, 2 * MAX_COORD as int);
            lemma_mul_bound(num as int, T_BOUND as int, self.dir.z as int, 2 * MAX_COORD as int);
            assert((MAX_COORD as int) * (T_BOUND as int) == 206158430208);
            assert((T_BOUND as int) * (2 * MAX_COORD as int) == 412316860416);
        }
        RatVec3 {
            x: self.origin.x as i128 * den as i128 + num as i128 * self.dir.x as i128,
            y: self.origin.y as i128 * den as i128 + num as i128 * self.dir.y as i128,
            z: self.origin.z as i128 * den as i128 + num as i128 * self.dir.z as i128,
            den: den as i128,
        }
    }
}

/// A rational point: three numerators over one positive denominator.
#[derive(Clone, Copy, Debug, PartialEq, Eq, Structural)]
pub struct RatVec3 {
    pub x: i128,
    pub y: i128,
    pub z: i128,
    pub den: i128,
}

/// Mathematical rational point.
pub ghost struct Q3 {
    pub x: int,
    pub y: int,
    pub z: int,
    pub den: int,
}

impl View for RatVec3 {
    type V = Q3;

    open spec fn view(&self) -> Q3 {
        Q3 { x: self.x as int, y: self.y as int, z: self.z as int, den: self.den as int }
    }
}

impl Q3 {
    /// Numerators as a vector.
    pub open spec fn nums(self) -> W3 {
        W3 { x: self.x, y: self.y, z: self.z }
    }
}

/// The magnitude budget every rational point handed to the point-in-triangle
/// test must satisfy; every point the library itself produces satisfies it.
pub open spec fn rat_vec_in_range(p: Q3) -> bool {
    &&& w3_le(p.nums(), RAT_NUM_BOUND as int)
    &&& 0 < p.den <= RAT_DEN_BOUND as int
}

/// Create a ray from two points: it starts at `p1` and reaches `p2` at
/// parameter one.
pub fn ray_3d_from_points(p1: Vec3i, p2: Vec3i) -> (r: Ray3d)
    requires
        in_coord_range(p1),
        in_coord_range(p2),
    ensures
        r.origin == p1,
        r.dir.m() == w3_sub(p2.m(), p1.m()),
        ray_in_range(r),
{
    Ray3d {
        origin: p1,
        dir: Vec3i { x: p2.x - p1.x, y: p2.y - p1.y, z: p2.z - p1.z },
    }
}

/// The plane through three points, with normal `(p2 - p1) x (p3 - p1)` and
/// offset `d = normal . p1`. Collinear points give a zero normal; the
/// intersection machinery then classifies every ray as missing the plane.
pub fn plane_from_points(p1: Vec3i, p2: Vec3i, p3: Vec3i) -> (r: Plane)
    requires
        in_coord_range(p1),
        in_coord_range(p2),
        in_coord_range(p3),
    ensures
        r.normal() == w3_cross(w3_sub(p2.m(), p1.m()), w3_sub(p3.m(), p1.m())),
        r.d as int == w3_dot(r.normal(), p1.m()),
        plane_in_range(r),
{
    let v1 = Vec3i { x: p2.x - p1.x, y: p2.y - p1.y, z: p2.z - p1.z };
    let v2 = Vec3i { x: p3.x - p1.x, y: p3.y - p1.y, z: p3.z - p1.z };
    proof {
        let b2: int = 2 * MAX_COORD as int;
        lemma_mul_bound(v1.y as int, b2, v2.z as int, b2);
        lemma_mul_bound(v1.z as int, b2, v2.y as int, b2);
        lemma_mul_bound(v1.z as int, b2, v2.x as int, b2);
        lemma_mul_bound(v1.x as int, b2, v2.z as int, b2);
        lemma_mul_bound(v1.x as int, b2, v2.y as int, b2);
        lemma_mul_bound(v1.y as int, b2, v2.x as int, b2);
        assert(b2 * b2 == 262144);
    }
    let nx = v1.y * v2.z - v1.z * v2.y;
    let ny = v1.z * v2.x - v1.x * v2.z;
    let nz = v1.x * v2.y - v1.y * v2.x;
    proof {
        lemma_mul_bound(nx as int, PLANE_N_BOUND as int, p1.x as int, MAX_COORD as int);
        lemma_mul_bound(ny as int, PLANE_N_BOUND as int, p1.y as int, MAX_COORD as int);
        lemma_mul_bound(nz as int, PLANE_N_BOUND as int, p1.z as int, MAX_COORD as int);
        assert((PLANE_N_BOUND as int) * (MAX_COORD as int) == 134217728);
    }
    let d = nx * p1.x + ny * p1.y + nz * p1.z;
    Plane { a: nx, b: ny, c: nz, d }
}

/// The parameter at which `ray` meets `plane`: the exact solution `t` of
/// `d - n . origin = t * (n . dir)`, with a vanishing denominator classified
/// as an infinity or as no value, exactly as the callers' interval tests
/// expect.
pub fn ray_plane_intersect(ray: Ray3d, plane: Plane) -> (r: Tval)
    requires
        ray_in_range(ray),
        plane_in_range(plane),
    ensures
        r@ == spec_ray_plane_intersect(ray, plane),
        tval_wf(r@),
        tval_bounded(r@, T_BOUND as int),
{
    proof {
        lemma_mul_bound(plane.a as int, PLANE_N_BOUND as int, ray.dir.x as int, 2 * MAX_COORD as int);
        lemma_mul_bound(plane.b as int, PLANE_N_BOUND as int, ray.dir.y as int, 2 * MAX_COORD as int);
        lemma_mul_bound(plane.c as int, PLANE_N_BOUND as int, ray.dir.z as int, 2 * MAX_COORD as int);
        lemma_mul_bound(plane.a as int, PLANE_N_BOUND as int, ray.origin.x as int, MAX_COORD as int);
        lemma_mul_bound(plane.b as int, PLANE_N_BOUND as int, ray.origin.y as int, MAX_COORD as int);
        lemma_mul_bound(plane.c as int, PLANE_N_BOUND as int, ray.origin.z as int, MAX_COORD as int);
        assert((PLANE_N_BOUND as int) * (2 * MAX_COORD as int) == 268435456) by (nonlinear_arith);
        assert((PLANE_N_BOUND as int) * (MAX_COORD as int) == 134217728) by (nonlinear_arith);
    }
    let den: i64 = plane.a * ray.dir.x + plane.b * ray.dir.y + plane.c * ray.dir.z;
    let num: i64 = plane.d - (plane.a * ray.origin.x + plane.b * ray.origin.y + plane.c
        * ray.origin.z);
    if den > 0 {
        Tval::Finite { num, den }
    } else if den < 0 {
        Tval::Finite { num: -num, den: -den }
    } else if num > 0 {
        Tval::PlusInf
    } else if num < 0 {
        Tval::MinusInf
    } else {
        Tval::NaN
    }
}

/// A finite parameter whose numerator and denominator stay within `b`.
pub open spec fn tval_bounded(t: TvalModel, b: int) -> bool {
    match t {
        TvalModel::Finite { num, den } => -b <= num <= b && den <= b,
        _ => true,
    }
}

/// Exact comparison of two intersection parameters.
pub fn tval_lt(a: &Tval, b: &Tval) -> (r: bool)
    ensures
        r == spec_tval_lt(a@, b@),
{
    match (a, b) {
        (Tval::NaN, _) => false,
        (_, Tval::NaN) => false,
        (Tval::MinusInf, Tval::MinusInf) => false,
        (Tval::MinusInf, _) => true,
        (_, Tval::MinusInf) => false,
        (_, Tval::PlusInf) => !matches!(a, Tval::PlusInf),
        (Tval::PlusInf, _) => false,
        (Tval::Finite { num: n1, den: d1 }, Tval::Finite { num: n2, den: d2 }) => {
            proof {
                lemma_mul_bound(*n1 as int, 0x8000000000000000, *d2 as int, 0x8000000000000000);
                lemma_mul_bound(*n2 as int, 0x8000000000000000, *d1 as int, 0x8000000000000000);
            }
            (*n1 as i128) * (*d2 as i128) < (*n2 as i128) * (*d1 as i128)
        },
    }
}

/// The smaller of two parameters, ignoring a `NaN` operand.
pub fn tval_min(a: Tval, b: Tval) -> (r: Tval)
    ensures
        r@ == spec_tval_min(a@, b@),
{
    if matches!(a, Tval::NaN) {
        b
    } else if matches!(b, Tval::NaN) {
        a
    } else if tval_lt(&b, &a) {
        b
    } else {
        a
    }
}

/// The larger of two parameters, ignoring a `NaN` operand.
pub fn tval_max(a: Tval, b: Tval) -> (r: Tval)
    ensures
        r@ == spec_tval_max(a@, b@),
{
    if matches!(a, Tval::NaN) {
        b
    } else if matches!(b, Tval::NaN) {
        a
    } else if tval_lt(&a, &b) {
        b
    } else {
        a
    }
}

} // verus!
