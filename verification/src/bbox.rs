//! Axis-aligned bounding boxes: construction from a triangle buffer,
//! containment, the fixed corner winding the intersection tests index into,
//! and the split of a box into its eight octants.

use vstd::prelude::*;

use crate::math::{in_coord_range, w3_le, Triangle3d, Vec3i, W3, MAX_COORD};

verus! {

/// An axis-aligned box given by its two extreme corners.
#[derive(Clone, Copy, Debug, PartialEq, Eq, Structural)]
pub struct AABB {
    pub min: Vec3i,
    pub max: Vec3i,
}

/// `min` is below `max` on every axis.
pub open spec fn aabb_wf(b: AABB) -> bool {
    &&& b.min.x <= b.max.x
    &&& b.min.y <= b.max.y
    &&& b.min.z <= b.max.z
}

/// Both corners lie on the library's coordinate grid.
pub open spec fn aabb_in_range(b: AABB) -> bool {
    &&& in_coord_range(b.min)
    &&& in_coord_range(b.max)
}

/// Inclusive per-axis containment of a point.
pub open spec fn spec_point_in_aabb(p: W3, b: AABB) -> bool {
    &&& b.min.x <= p.x <= b.max.x
    &&& b.min.y <= p.y <= b.max.y
    &&& b.min.z <= p.z <= b.max.z
}

/// Strict per-axis containment: the point is in the open interior.
pub open spec fn spec_point_in_open_aabb(p: W3, b: AABB) -> bool {
    &&& b.min.x < p.x < b.max.x
    &&& b.min.y < p.y < b.max.y
    &&& b.min.z < p.z < b.max.z
}

/// The box has positive extent on every axis.
pub open spec fn aabb_proper(b: AABB) -> bool {
    &&& b.min.x < b.max.x
    &&& b.min.y < b.max.y
    &&& b.min.z < b.max.z
}

/// Every point of `inner` lies in `outer`.
pub open spec fn aabb_contained_in(inner: AABB, outer: AABB) -> bool {
    &&& outer.min.x <= inner.min.x && inner.max.x <= outer.max.x
    &&& outer.min.y <= inner.min.y && inner.max.y <= outer.max.y
    &&& outer.min.z <= inner.min.z && inner.max.z <= outer.max.z
}

impl AABB {
    pub fn new(min: Vec3i, max: Vec3i) -> (r: AABB)
        ensures
            r == (AABB { min, max }),
    {
        AABB { min, max }
    }
}

/// Corner `k` of a box, in the fixed winding order the intersection tests
/// rely on: the four bottom corners (lowest `y`) starting at `min` and going
/// around the face, then the four top corners starting at `max`, going around
/// so that corner `k + 4` sits diagonally opposite corner `k`.
pub open spec fn spec_aabb_vertex(b: AABB, k: int) -> Vec3i {
    if k == 0 {
        b.min
    } else if k == 1 {
        Vec3i { x: b.min.x, y: b.min.y, z: b.max.z }
    } else if k == 2 {
        Vec3i { x: b.max.x, y: b.min.y, z: b.max.z }
    } else if k == 3 {
        Vec3i { x: b.max.x, y: b.min.y, z: b.min.z }
    } else if k == 4 {
        b.max
    } else if k == 5 {
        Vec3i { x: b.max.x, y: b.max.y, z: b.min.z }
    } else if k == 6 {
        Vec3i { x: b.min.x, y: b.max.y, z: b.min.z }
    } else {
        Vec3i { x: b.min.x, y: b.max.y, z: b.max.z }
    }
}

/// The eight corners of a box in the fixed winding order (see
/// [`spec_aabb_vertex`]).
pub fn aabb_vertices(aabb: AABB) -> (r: [Vec3i; 8])
    ensures
        forall|k: int| 0 <= k < 8 ==> r[k] == spec_aabb_vertex(aabb, k),
{
    let p1 = aabb.min;
    let p2 = Vec3i { x: aabb.min.x, y: aabb.min.y, z: aabb.max.z };
    let p3 = Vec3i { x: aabb.max.x, y: aabb.min.y, z: aabb.max.z };
    let p4 = Vec3i { x: aabb.max.x, y: aabb.min.y, z: aabb.min.z };
    let p5 = aabb.max;
    let p6 = Vec3i { x: aabb.max.x, y: aabb.max.y, z: aabb.min.z };
    let p7 = Vec3i { x: aabb.min.x, y: aabb.max.y, z: aabb.min.z };
    let p8 = Vec3i { x: aabb.min.x, y: aabb.max.y, z: aabb.max.z };
    [p1, p2, p3, p4, p5, p6, p7, p8]
}

/// Inclusive containment of a grid point in a box.
pub fn point_in_aabb(point: Vec3i, aabb: AABB) -> (r: bool)
    ensures
        r == spec_point_in_aabb(point.m(), aabb),
{
    point.x >= aabb.min.x && point.x <= aabb.max.x && point.y >= aabb.min.y && point.y
        <= aabb.max.y && point.z >= aabb.min.z && point.z <= aabb.max.z
}

/// Midpoint of a grid interval, rounded toward the lower end.
pub open spec fn spec_mid(lo: i64, hi: i64) -> int {
    lo + (hi - lo) / 2
}

/// Octant `k` (0 to 7) of a box: on each axis either the lower half
/// `[lo, mid]` or the upper half `[mid, hi]`, where `mid` is the grid
/// midpoint. Bit 0 of `k` picks the `x` half, bit 1 the `y` half and bit 2
/// the `z` half, so octant 0 touches `min` and octant 7 touches `max`.
pub open spec fn spec_octant(b: AABB, k: int) -> AABB {
    let mx = spec_mid(b.min.x, b.max.x);
    let my = spec_mid(b.min.y, b.max.y);
    let mz = spec_mid(b.min.z, b.max.z);
    AABB {
        min: Vec3i {
            x: if k % 2 == 0 { b.min.x as int } else { mx } as i64,
            y: if (k / 2) % 2 == 0 { b.min.y as int } else { my } as i64,
            z: if (k / 4) % 2 == 0 { b.min.z as int } else { mz } as i64,
        },
        max: Vec3i {
            x: if k % 2 == 0 { mx } else { b.max.x as int } as i64,
            y: if (k / 2) % 2 == 0 { my } else { b.max.y as int } as i64,
            z: if (k / 4) % 2 == 0 { mz } else { b.max.z as int } as i64,
        },
    }
}

/// Split a box into its eight octants.
pub fn split_octants(b: AABB) -> (r: [AABB; 8])
    requires
        aabb_wf(b),
        aabb_in_range(b),
    ensures
        forall|k: int| 0 <= k < 8 ==> r[k] == spec_octant(b, k),
{
    let mx = b.min.x + (b.max.x - b.min.x) / 2;
    let my = b.min.y + (b.max.y - b.min.y) / 2;
    let mz = b.min.z + (b.max.z - b.min.z) / 2;
    let lo = b.min;
    let hi = b.max;
    [
        AABB { min: Vec3i { x: lo.x, y: lo.y, z: lo.z }, max: Vec3i { x: mx, y: my, z: mz } },
        AABB { min: Vec3i { x: mx, y: lo.y, z: lo.z }, max: Vec3i { x: hi.x, y: my, z: mz } },
        AABB { min: Vec3i { x: lo.x, y: my, z: lo.z }, max: Vec3i { x: mx, y: hi.y, z: mz } },
        AABB { min: Vec3i { x: mx, y: my, z: lo.z }, max: Vec3i { x: hi.x, y: hi.y, z: mz } },
        AABB { min: Vec3i { x: lo.x, y: lo.y, z: mz }, max: Vec3i { x: mx, y: my, z: hi.z } },
        AABB { min: Vec3i { x: mx, y: lo.y, z: mz }, max: Vec3i { x: hi.x, y: my, z: hi.z } },
        AABB { min: Vec3i { x: lo.x, y: my, z: mz }, max: Vec3i { x: mx, y: hi.y, z: hi.z } },
        AABB { min: Vec3i { x: mx, y: my, z: mz }, max: Vec3i { x: hi.x, y: hi.y, z: hi.z } },
    ]
}

/// Octants are well-formed sub-boxes of their parent, and the octant of a
/// point in the parent exists.
pub proof fn lemma_octant_wf(b: AABB, k: int)
    requires
        aabb_wf(b),
        aabb_in_range(b),
        0 <= k < 8,
    ensures
        aabb_wf(spec_octant(b, k)),
        aabb_in_range(spec_octant(b, k)),
        aabb_contained_in(spec_octant(b, k), b),
{
    crate::arith::lemma_half_range(b.max.x - b.min.x);
    crate::arith::lemma_half_range(b.max.y - b.min.y);
    crate::arith::lemma_half_range(b.max.z - b.min.z);
}

/// Box tiling: the eight octants of a box exactly tile it. Every point of
/// the box lies in at least one octant (so their union is the whole box, and
/// octants 0 and 7 reach the two extreme corners), and the open interiors of
/// distinct octants are pairwise disjoint.
pub proof fn lemma_octants_tile(b: AABB)
    requires
        aabb_wf(b),
        aabb_in_range(b),
    ensures
        forall|k: int| 0 <= k < 8 ==> aabb_wf(#[trigger] spec_octant(b, k)) && aabb_contained_in(
            spec_octant(b, k),
            b,
        ),
        spec_octant(b, 0).min == b.min,
        spec_octant(b, 7).max == b.max,
        forall|p: W3|
            #[trigger] spec_point_in_aabb(p, b) <==> exists|k: int|
                0 <= k < 8 && spec_point_in_aabb(p, #[trigger] spec_octant(b, k)),
        forall|p: W3, k1: int, k2: int|
            0 <= k1 < 8 && 0 <= k2 < 8 && k1 != k2 ==> !(#[trigger] spec_point_in_open_aabb(
                p,
                spec_octant(b, k1),
            ) && #[trigger] spec_point_in_open_aabb(p, spec_octant(b, k2))),
{
    crate::arith::lemma_half_range(b.max.x - b.min.x);
    crate::arith::lemma_half_range(b.max.y - b.min.y);
    crate::arith::lemma_half_range(b.max.z - b.min.z);
    assert forall|k: int| 0 <= k < 8 implies aabb_wf(#[trigger] spec_octant(b, k))
        && aabb_contained_in(spec_octant(b, k), b) by {
        lemma_octant_wf(b, k);
    }
    assert forall|p: W3| spec_point_in_aabb(p, b) implies exists|k: int|
        0 <= k < 8 && spec_point_in_aabb(p, #[trigger] spec_octant(b, k)) by {
        let mx = spec_mid(b.min.x, b.max.x);
        let my = spec_mid(b.min.y, b.max.y);
        let mz = spec_mid(b.min.z, b.max.z);
        let kx: int = if p.x <= mx { 0 } else { 1 };
        let ky: int = if p.y <= my { 0 } else { 1 };
        let kz: int = if p.z <= mz { 0 } else { 1 };
        let k = kx + 2 * ky + 4 * kz;
        assert(spec_point_in_aabb(p, spec_octant(b, k)));
    }
    assert forall|p: W3| (exists|k: int|
        0 <= k < 8 && spec_point_in_aabb(p, #[trigger] spec_octant(b, k))) implies
        spec_point_in_aabb(p, b) by {
        let k = choose|k: int| 0 <= k < 8 && spec_point_in_aabb(p, #[trigger] spec_octant(b, k));
        lemma_octant_wf(b, k);
    }
}

/// Every corner of a well-formed box lies in the box.
pub proof fn lemma_corner_in_box(b: AABB, k: int)
    requires
        aabb_wf(b),
        0 <= k < 8,
    ensures
        spec_point_in_aabb(spec_aabb_vertex(b, k).m(), b),
{
}

/// The axis-aligned bound of every vertex of every triangle in the buffer:
/// the exact componentwise minimum and maximum. An empty buffer yields the
/// degenerate box at the origin.
pub fn find_aabb(triangles: &Vec<Triangle3d>) -> (r: AABB)
    ensures
        triangles@.len() == 0 ==> r == (AABB {
            min: Vec3i { x: 0, y: 0, z: 0 },
            max: Vec3i { x: 0, y: 0, z: 0 },
        }),
        forall|i: int, k: int|
            0 <= i < triangles@.len() && 0 <= k < 3 ==> spec_point_in_aabb(
                (#[trigger] triangles@[i].vertices[k]).m(),
                r,
            ),
        triangles@.len() > 0 ==> {
            &&& aabb_wf(r)
            &&& (exists|i: int, k: int|
                0 <= i < triangles@.len() && 0 <= k < 3 && (#[trigger] triangles@[i].vertices[k]).x
                    == r.min.x)
            &&& (exists|i: int, k: int|
                0 <= i < triangles@.len() && 0 <= k < 3 && (#[trigger] triangles@[i].vertices[k]).y
                    == r.min.y)
            &&& (exists|i: int, k: int|
                0 <= i < triangles@.len() && 0 <= k < 3 && (#[trigger] triangles@[i].vertices[k]).z
                    == r.min.z)
            &&& (exists|i: int, k: int|
                0 <= i < triangles@.len() && 0 <= k < 3 && (#[trigger] triangles@[i].vertices[k]).x
                    == r.max.x)
            &&& (exists|i: int, k: int|
                0 <= i < triangles@.len() && 0 <= k < 3 && (#[trigger] triangles@[i].vertices[k]).y
                    == r.max.y)
            &&& (exists|i: int, k: int|
                0 <= i < triangles@.len() && 0 <= k < 3 && (#[trigger] triangles@[i].vertices[k]).z
                    == r.max.z)
        },
{
    if triangles.len() == 0 {
        return AABB { min: Vec3i { x: 0, y: 0, z: 0 }, max: Vec3i { x: 0, y: 0, z: 0 } };
    }
    let seed = triangles[0].vertices[0];
    let mut min_x = seed.x;
    let mut min_y = seed.y;
    let mut min_z = seed.z;
    let mut max_x = seed.x;
    let mut max_y = seed.y;
    let mut max_z = seed.z;
    let n = triangles.len();
    let mut i: usize = 0;
    while i < n
        invariant
            0 < n == triangles@.len(),
            0 <= i <= n,
            seed == triangles@[0].vertices[0],
            min_x <= seed.x && min_y <= seed.y && min_z <= seed.z,
            seed.x <= max_x && seed.y <= max_y && seed.z <= max_z,
            forall|j: int, k: int|
                0 <= j < i && 0 <= k < 3 ==> {
                    let v = #[trigger] triangles@[j].vertices[k];
                    min_x <= v.x <= max_x && min_y <= v.y <= max_y && min_z <= v.z <= max_z
                },
            min_x == seed.x || (exists|j: int, k: int|
                0 <= j < i && 0 <= k < 3 && (#[trigger] triangles@[j].vertices[k]).x == min_x),
            min_y == seed.y || (exists|j: int, k: int|
                0 <= j < i && 0 <= k < 3 && (#[trigger] triangles@[j].vertices[k]).y == min_y),
            min_z == seed.z || (exists|j: int, k: int|
                0 <= j < i && 0 <= k < 3 && (#[trigger] triangles@[j].vertices[k]).z == min_z),
            max_x == seed.x || (exists|j: int, k: int|
                0 <= j < i && 0 <= k < 3 && (#[trigger] triangles@[j].vertices[k]).x == max_x),
            max_y == seed.y || (exists|j: int, k: int|
                0 <= j < i && 0 <= k < 3 && (#[trigger] triangles@[j].vertices[k]).y == max_y),
            max_z == seed.z || (exists|j: int, k: int|
                0 <= j < i && 0 <= k < 3 && (#[trigger] triangles@[j].vertices[k]).z == max_z),
        decreases n - i,
    {
        let tri = triangles[i];
        let mut k: usize = 0;
        while k < 3
            invariant
                0 <= i < n == triangles@.len(),
                0 <= k <= 3,
                tri == triangles@[i as int],
                seed == triangles@[0].vertices[0],
                min_x <= seed.x && min_y <= seed.y && min_z <= seed.z,
                seed.x <= max_x && seed.y <= max_y && seed.z <= max_z,
                forall|j: int, l: int|
                    0 <= j < i && 0 <= l < 3 ==> {
                        let v = #[trigger] triangles@[j].vertices[l];
                        min_x <= v.x <= max_x && min_y <= v.y <= max_y && min_z <= v.z <= max_z
                    },
                forall|l: int|
                    0 <= l < k ==> {
                        let v = #[trigger] tri.vertices[l];
                        min_x <= v.x <= max_x && min_y <= v.y <= max_y && min_z <= v.z <= max_z
                    },
                min_x == seed.x || (exists|j: int, l: int|
                    0 <= j <= i && 0 <= l < 3 && (#[trigger] triangles@[j].vertices[l]).x == min_x),
                min_y == seed.y || (exists|j: int, l: int|
                    0 <= j <= i && 0 <= l < 3 && (#[trigger] triangles@[j].vertices[l]).y == min_y),
                min_z == seed.z || (exists|j: int, l: int|
                    0 <= j <= i && 0 <= l < 3 && (#[trigger] triangles@[j].vertices[l]).z == min_z),
                max_x == seed.x || (exists|j: int, l: int|
                    0 <= j <= i && 0 <= l < 3 && (#[trigger] triangles@[j].vertices[l]).x == max_x),
                max_y == seed.y || (exists|j: int, l: int|
                    0 <= j <= i && 0 <= l < 3 && (#[trigger] triangles@[j].vertices[l]).y == max_y),
                max_z == seed.z || (exists|j: int, l: int|
                    0 <= j <= i && 0 <= l < 3 && (#[trigger] triangles@[j].vertices[l]).z == max_z),
            decreases 3 - k,
        {
            let v = tri.vertices[k];
            if v.x < min_x {
                min_x = v.x;
            }
            if v.y < min_y {
                min_y = v.y;
            }
            if v.z < min_z {
                min_z = v.z;
            }
            if v.x > max_x {
                max_x = v.x;
            }
            if v.y > max_y {
                max_y = v.y;
            }
            if v.z > max_z {
                max_z = v.z;
            }
            k = k + 1;
        }
        i = i + 1;
    }
    AABB { min: Vec3i { x: min_x, y: min_y, z: min_z }, max: Vec3i { x: max_x, y: max_y, z: max_z } }
}

/// A box bounded by in-range geometry is itself in range.
pub proof fn lemma_find_aabb_in_range(triangles: Seq<Triangle3d>, r: AABB)
    requires
        forall|i: int, k: int|
            0 <= i < triangles.len() && 0 <= k < 3 ==> in_coord_range(
                #[trigger] triangles[i].vertices[k],
            ),
        triangles.len() > 0,
        forall|i: int, k: int|
            0 <= i < triangles.len() && 0 <= k < 3 ==> spec_point_in_aabb(
                (#[trigger] triangles[i].vertices[k]).m(),
                r,
            ),
        exists|i: int, k: int|
            0 <= i < triangles.len() && 0 <= k < 3 && (#[trigger] triangles[i].vertices[k]).x
                == r.min.x,
        exists|i: int, k: int|
            0 <= i < triangles.len() && 0 <= k < 3 && (#[trigger] triangles[i].vertices[k]).y
                == r.min.y,
        exists|i: int, k: int|
            0 <= i < triangles.len() && 0 <= k < 3 && (#[trigger] triangles[i].vertices[k]).z
                == r.min.z,
        exists|i: int, k: int|
            0 <= i < triangles.len() && 0 <= k < 3 && (#[trigger] triangles[i].vertices[k]).x
                == r.max.x,
        exists|i: int, k: int|
            0 <= i < triangles.len() && 0 <= k < 3 && (#[trigger] triangles[i].vertices[k]).y
                == r.max.y,
        exists|i: int, k: int|
            0 <= i < triangles.len() && 0 <= k < 3 && (#[trigger] triangles[i].vertices[k]).z
                == r.max.z,
    ensures
        aabb_in_range(r),
{
}

} // verus!
