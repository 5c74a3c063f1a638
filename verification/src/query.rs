//! The ray query engine: walk a collision tree, prune subtrees whose
//! (world-transformed) boxes the ray misses by the slab test, and resolve
//! exact ray/triangle intersection points at the leaves.

use vstd::prelude::*;

use crate::arith::lemma_mul_bound;
use crate::bbox::{
    aabb_contained_in, aabb_in_range, aabb_proper, aabb_wf, aabb_vertices, lemma_corner_in_box,
    spec_aabb_vertex, spec_point_in_aabb, AABB,
};
use crate::classify::{point_in_tri, spec_point_in_tri};
use crate::math::{
    in_coord_range, plane_from_points, ray_in_range, ray_plane_intersect, spec_tval_classify,
    spec_tval_lt, spec_tval_max, spec_tval_min, tri_in_range, tval_lt, tval_max, tval_min, w3_cross,
    w3_dot, w3_le, w3_sub, Q3, RatVec3, Ray3d, Triangle3d, Tval, TvalModel, Vec3i, W3, MAX_COORD,
};
use crate::tree::{tree_wf, RecursiveAABB, TriangleData};

verus! {

/// Bound on the entries of an affine transform, so that applying it to any
/// in-budget point stays well inside `i64`.
pub const TRANSFORM_BOUND: i64 = 1048576;

/// An affine map of mesh-local space into world space: three rows of a linear
/// part applied by dot product, then a translation. This is the lattice
/// counterpart of the usual 4x4 transform matrix.
#[derive(Clone, Copy, Debug, PartialEq, Eq, Structural)]
pub struct Affine3 {
    pub x_row: Vec3i,
    pub y_row: Vec3i,
    pub z_row: Vec3i,
    pub translation: Vec3i,
}

/// The image of a point under the transform.
pub open spec fn spec_transform_point(t: Affine3, p: W3) -> W3 {
    W3 {
        x: w3_dot(t.x_row.m(), p) + t.translation.x,
        y: w3_dot(t.y_row.m(), p) + t.translation.y,
        z: w3_dot(t.z_row.m(), p) + t.translation.z,
    }
}

/// All entries within the working budget of [`TRANSFORM_BOUND`].
pub open spec fn transform_entries_small(t: Affine3) -> bool {
    &&& w3_le(t.x_row.m(), TRANSFORM_BOUND as int)
    &&& w3_le(t.y_row.m(), TRANSFORM_BOUND as int)
    &&& w3_le(t.z_row.m(), TRANSFORM_BOUND as int)
    &&& w3_le(t.translation.m(), TRANSFORM_BOUND as int)
}

/// The transform maps every point of the box onto the coordinate grid.
pub open spec fn transform_maps_box_in_range(t: Affine3, b: AABB) -> bool {
    forall|p: W3|
        spec_point_in_aabb(p, b) ==> w3_le(#[trigger] spec_transform_point(t, p), MAX_COORD as int)
}

/// The transform maps every vertex of the buffer onto the coordinate grid.
pub open spec fn transform_maps_tris_in_range(t: Affine3, tris: Seq<Triangle3d>) -> bool {
    forall|i: int, k: int|
        0 <= i < tris.len() && 0 <= k < 3 ==> w3_le(
            #[trigger] spec_transform_point(t, tris[i].vertices[k].m()),
            MAX_COORD as int,
        )
}

impl Affine3 {
    /// The identity map.
    pub fn identity() -> (r: Affine3)
        ensures
            r == (Affine3 {
                x_row: Vec3i { x: 1, y: 0, z: 0 },
                y_row: Vec3i { x: 0, y: 1, z: 0 },
                z_row: Vec3i { x: 0, y: 0, z: 1 },
                translation: Vec3i { x: 0, y: 0, z: 0 },
            }),
            transform_entries_small(r),
            forall|p: W3| #[trigger] spec_transform_point(r, p) == p,
    {
        let r = Affine3 {
            x_row: Vec3i { x: 1, y: 0, z: 0 },
            y_row: Vec3i { x: 0, y: 1, z: 0 },
            z_row: Vec3i { x: 0, y: 0, z: 1 },
            translation: Vec3i { x: 0, y: 0, z: 0 },
        };
        r
    }

    /// Apply the transform to a point.
    pub fn transform_point3(&self, p: Vec3i) -> (r: Vec3i)
        requires
            transform_entries_small(*self),
            w3_le(p.m(), TRANSFORM_BOUND as int),
        ensures
            r.m() == spec_transform_point(*self, p.m()),
    {
        proof {
            lemma_mul_bound(self.x_row.x as int, TRANSFORM_BOUND as int, p.x as int, TRANSFORM_BOUND as int);
            lemma_mul_bound(self.x_row.y as int, TRANSFORM_BOUND as int, p.y as int, TRANSFORM_BOUND as int);
            lemma_mul_bound(self.x_row.z as int, TRANSFORM_BOUND as int, p.z as int, TRANSFORM_BOUND as int);
            lemma_mul_bound(self.y_row.x as int, TRANSFORM_BOUND as int, p.x as int, TRANSFORM_BOUND as int);
            lemma_mul_bound(self.y_row.y as int, TRANSFORM_BOUND as int, p.y as int, TRANSFORM_BOUND as int);
            lemma_mul_bound(self.y_row.z as int, TRANSFORM_BOUND as int, p.z as int, TRANSFORM_BOUND as int);
            lemma_mul_bound(self.z_row.x as int, TRANSFORM_BOUND as int, p.x as int, TRANSFORM_BOUND as int);
            lemma_mul_bound(self.z_row.y as int, TRANSFORM_BOUND as int, p.y as int, TRANSFORM_BOUND as int);
            lemma_mul_bound(self.z_row.z as int, TRANSFORM_BOUND as int, p.z as int, TRANSFORM_BOUND as int);
            assert((TRANSFORM_BOUND as int) * (TRANSFORM_BOUND as int) == 1099511627776)
                by (nonlinear_arith);
        }
        Vec3i {
            x: self.x_row.x * p.x + self.x_row.y * p.y + self.x_row.z * p.z + self.translation.x,
            y: self.y_row.x * p.x + self.y_row.y * p.y + self.y_row.z * p.z + self.translation.y,
            z: self.z_row.x * p.x + self.z_row.y * p.y + self.z_row.z * p.z + self.translation.z,
        }
    }
}

/// The intersection parameter of the ray with the plane through three points,
/// classified as the division would be.
pub open spec fn spec_plane_t(ray: Ray3d, a: W3, b: W3, c: W3) -> TvalModel {
    let n = w3_cross(w3_sub(b, a), w3_sub(c, a));
    let d = w3_dot(n, a);
    let den = w3_dot(n, ray.dir.m());
    let num = d - w3_dot(n, ray.origin.m());
    spec_tval_classify(num, den)
}

/// The slab test on the eight (possibly transformed) corners of a box, in the
/// fixed winding of [`spec_aabb_vertex`]: the three pairs of parallel faces
/// give three entry/exit intervals of intersection parameters; the ray hits
/// the box exactly when the intersection of the three intervals is non-empty
/// (strictly). A slab the ray is parallel to contributes an unbounded or
/// empty interval through the infinities, and a slab whose plane holds the
/// ray origin drops out through the `NaN` rules, exactly as the float
/// comparisons would decide.
pub open spec fn spec_ray_intersects_box(ray: Ray3d, v: Seq<Vec3i>) -> bool {
    let t1 = spec_plane_t(ray, v[0].m(), v[1].m(), v[7].m());
    let t2 = spec_plane_t(ray, v[3].m(), v[2].m(), v[4].m());
    let t3 = spec_plane_t(ray, v[0].m(), v[3].m(), v[5].m());
    let t4 = spec_plane_t(ray, v[1].m(), v[2].m(), v[4].m());
    let t5 = spec_plane_t(ray, v[0].m(), v[1].m(), v[2].m());
    let t6 = spec_plane_t(ray, v[4].m(), v[5].m(), v[6].m());
    let lo1 = spec_tval_min(t1, t2);
    let hi1 = spec_tval_max(t1, t2);
    let lo2 = spec_tval_min(t3, t4);
    let hi2 = spec_tval_max(t3, t4);
    let lo3 = spec_tval_min(t5, t6);
    let hi3 = spec_tval_max(t5, t6);
    let lo = spec_tval_max(spec_tval_max(lo1, lo2), lo3);
    let hi = spec_tval_min(spec_tval_min(hi1, hi2), hi3);
    spec_tval_lt(lo, hi)
}

/// The slab test: whether the ray passes through the box whose corners are
/// `v`, given in the fixed winding of [`spec_aabb_vertex`] (the corners may
/// have been transformed, so the box need not be axis-aligned).
pub fn ray_intersects_box(ray: Ray3d, v: &[Vec3i; 8]) -> (r: bool)
    requires
        ray_in_range(ray),
        forall|k: int| 0 <= k < 8 ==> in_coord_range(#[trigger] v[k]),
    ensures
        r == spec_ray_intersects_box(ray, v@),
{
    let p1 = plane_from_points(v[0], v[1], v[7]);
    let p2 = plane_from_points(v[3], v[2], v[4]);
    let p3 = plane_from_points(v[0], v[3], v[5]);
    let p4 = plane_from_points(v[1], v[2], v[4]);
    let p5 = plane_from_points(v[0], v[1], v[2]);
    let p6 = plane_from_points(v[4], v[5], v[6]);
    let t1 = ray_plane_intersect(ray, p1);
    let t2 = ray_plane_intersect(ray, p2);
    let t3 = ray_plane_intersect(ray, p3);
    let t4 = ray_plane_intersect(ray, p4);
    let t5 = ray_plane_intersect(ray, p5);
    let t6 = ray_plane_intersect(ray, p6);
    let lo1 = tval_min(t1, t2);
    let hi1 = tval_max(t1, t2);
    let lo2 = tval_min(t3, t4);
    let hi2 = tval_max(t3, t4);
    let lo3 = tval_min(t5, t6);
    let hi3 = tval_max(t5, t6);
    let lo = tval_max(tval_max(lo1, lo2), lo3);
    let hi = tval_min(tval_min(hi1, hi2), hi3);
    tval_lt(&lo, &hi)
}

/// The intersection point the ray makes with one (world-space) triangle, if
/// any: the exact point where the ray's line meets the triangle's plane, kept
/// when the angle test places it inside the triangle. A ray parallel to the
/// plane (or a degenerate triangle) yields no point. The parameter is not
/// required to be non-negative: a triangle behind the ray origin reports its
/// point too.
pub open spec fn spec_tri_hit(ray: Ray3d, a: W3, b: W3, c: W3) -> Option<Q3> {
    let n = w3_cross(w3_sub(b, a), w3_sub(c, a));
    let d = w3_dot(n, a);
    let den = w3_dot(n, ray.dir.m());
    let tn = d - w3_dot(n, ray.origin.m());
    let nn = if den > 0 { tn } else { -tn };
    let nd = if den > 0 { den } else { -den };
    if den != 0 && spec_point_in_tri(ray.spec_at(nn, nd), a, b, c) {
        Option::Some(ray.spec_at(nn, nd))
    } else {
        Option::None
    }
}

/// World-space vertex `k` of triangle `i` of the buffer.
pub open spec fn spec_world_vertex(t: Affine3, tris: Seq<Triangle3d>, i: int, k: int) -> W3 {
    spec_transform_point(t, tris[i].vertices[k].m())
}

/// The intersection points a leaf contributes: each listed triangle is taken
/// to world space and tested, in list order.
pub open spec fn spec_leaf_hits(
    ray: Ray3d,
    idx: Seq<usize>,
    tris: Seq<Triangle3d>,
    t: Affine3,
) -> Seq<Q3>
    decreases idx.len(),
{
    if idx.len() == 0 {
        Seq::empty()
    } else {
        let rest = spec_leaf_hits(ray, idx.drop_last(), tris, t);
        let i = idx.last() as int;
        match spec_tri_hit(
            ray,
            spec_world_vertex(t, tris, i, 0),
            spec_world_vertex(t, tris, i, 1),
            spec_world_vertex(t, tris, i, 2),
        ) {
            Option::Some(q) => rest.push(q),
            Option::None => rest,
        }
    }
}

/// All intersection points of the ray with the subtree, depth first in
/// construction order: nothing if the ray misses the node's transformed box;
/// otherwise the children's points in order, or the leaf's own points.
pub open spec fn spec_collision(
    ray: Ray3d,
    node: RecursiveAABB,
    tris: Seq<Triangle3d>,
    t: Affine3,
) -> Seq<Q3>
    decreases node, 1int,
{
    if !spec_ray_intersects_box(ray, spec_corners_of(t, node.aabb)) {
        Seq::empty()
    } else {
        match node.next {
            Option::None => spec_leaf_hits(ray, node.enclosed@, tris, t),
            Option::Some(children) => spec_collision_list(ray, children@, tris, t),
        }
    }
}

pub open spec fn spec_collision_list(
    ray: Ray3d,
    children: Seq<RecursiveAABB>,
    tris: Seq<Triangle3d>,
    t: Affine3,
) -> Seq<Q3>
    decreases children, 0int,
{
    if children.len() == 0 {
        Seq::empty()
    } else {
        spec_collision(ray, children[0], tris, t) + spec_collision_list(
            ray,
            children.drop_first(),
            tris,
            t,
        )
    }
}

/// The grid point with the given mathematical coordinates (meaningful when
/// they fit the grid).
pub open spec fn vec3i_of(u: W3) -> Vec3i {
    Vec3i { x: u.x as i64, y: u.y as i64, z: u.z as i64 }
}

/// Query the tree: all world-space intersection points of the ray with the
/// indexed triangles, pruning subtrees whose transformed boxes the ray
/// misses, depth first in construction order. Points of triangles duplicated
/// across leaves may be reported more than once.
pub fn collision(
    ray: Ray3d,
    recursive_aabb: &RecursiveAABB,
    triangle_data: &TriangleData,
    transform: &Affine3,
) -> (r: Vec<RatVec3>)
    requires
        ray_in_range(ray),
        tree_wf(*recursive_aabb, triangle_data.0@),
        forall|i: int|
            0 <= i < triangle_data.0@.len() ==> tri_in_range(#[trigger] triangle_data.0@[i]),
        transform_entries_small(*transform),
        transform_maps_box_in_range(*transform, recursive_aabb.aabb),
        transform_maps_tris_in_range(*transform, triangle_data.0@),
    ensures
        r@.map_values(|p: RatVec3| p@) == spec_collision(
            ray,
            *recursive_aabb,
            triangle_data.0@,
            *transform,
        ),
    decreases *recursive_aabb,
{
    let corners = aabb_vertices(recursive_aabb.aabb);
    proof {
        assert forall|k: int| 0 <= k < 8 implies spec_point_in_aabb(
            (#[trigger] spec_aabb_vertex(recursive_aabb.aabb, k)).m(),
            recursive_aabb.aabb,
        ) by {
            lemma_corner_in_box(recursive_aabb.aabb, k);
        }
        assert forall|k: int| 0 <= k < 8 implies w3_le(
            (#[trigger] corners[k]).m(),
            TRANSFORM_BOUND as int,
        ) by {
            assert(corners[k] == spec_aabb_vertex(recursive_aabb.aabb, k));
        }
    }
    let tv: [Vec3i; 8] = [
        transform.transform_point3(corners[0]),
        transform.transform_point3(corners[1]),
        transform.transform_point3(corners[2]),
        transform.transform_point3(corners[3]),
        transform.transform_point3(corners[4]),
        transform.transform_point3(corners[5]),
        transform.transform_point3(corners[6]),
        transform.transform_point3(corners[7]),
    ];
    proof {
        assert forall|k: int| 0 <= k < 8 implies in_coord_range(#[trigger] tv[k]) by {
            assert(spec_point_in_aabb(spec_aabb_vertex(recursive_aabb.aabb, k).m(), recursive_aabb.aabb));
            assert(w3_le(spec_transform_point(*transform, spec_aabb_vertex(recursive_aabb.aabb, k).m()), MAX_COORD as int));
        }
        assert(tv@ =~= spec_corners_of(*transform, recursive_aabb.aabb));
    }
    let mut collisions: Vec<RatVec3> = Vec::new();
    if !ray_intersects_box(ray, &tv) {
        return collisions;
    }
    if let Some(next) = &recursive_aabb.next {
        let mut k: usize = 0;
        proof {
            assert(next@.skip(0) =~= next@);
            assert(collisions@.map_values(|p: RatVec3| p@) =~= Seq::<Q3>::empty());
        }
        while k < next.len()
            invariant
                ray_in_range(ray),
                forall|i: int|
                    0 <= i < triangle_data.0@.len() ==> tri_in_range(#[trigger] triangle_data.0@[i]),
                transform_entries_small(*transform),
                transform_maps_tris_in_range(*transform, triangle_data.0@),
                transform_maps_box_in_range(*transform, recursive_aabb.aabb),
                tree_wf(*recursive_aabb, triangle_data.0@),
                recursive_aabb.next == Some(*next),
                0 <= k <= next@.len(),
                spec_collision(ray, *recursive_aabb, triangle_data.0@, *transform)
                    == collisions@.map_values(|p: RatVec3| p@) + spec_collision_list(
                    ray,
                    next@.skip(k as int),
                    triangle_data.0@,
                    *transform,
                ),
            decreases next@.len() - k,
        {
            proof {
                assert(next@ == recursive_aabb.next->0@);
                assert(0 <= k < recursive_aabb.next->0@.len());
                assert(decreases_to!(*recursive_aabb => recursive_aabb.next));
                assert(decreases_to!(recursive_aabb.next => recursive_aabb.next->0));
                assert(decreases_to!(recursive_aabb.next->0 => recursive_aabb.next->0@));
                assert(decreases_to!(recursive_aabb.next->0@ => recursive_aabb.next->0@[k as int]));
                assert(tree_wf(next@[k as int], triangle_data.0@));
                assert(aabb_contained_in(next@[k as int].aabb, recursive_aabb.aabb));
                assert forall|p: W3| spec_point_in_aabb(p, next@[k as int].aabb) implies w3_le(
                    #[trigger] spec_transform_point(*transform, p),
                    MAX_COORD as int,
                ) by {
                    assert(spec_point_in_aabb(p, recursive_aabb.aabb));
                }
            }
            let mut sub = collision(ray, &next[k], triangle_data, transform);
            proof {
                assert(next@.skip(k as int)[0] == next@[k as int]);
                assert(next@.skip(k as int).drop_first() =~= next@.skip(k as int + 1));
                assert((collisions@.map_values(|p: RatVec3| p@) + sub@.map_values(
                    |p: RatVec3| p@,
                )) + spec_collision_list(ray, next@.skip(k as int + 1), triangle_data.0@, *transform)
                    =~= collisions@.map_values(|p: RatVec3| p@) + (sub@.map_values(|p: RatVec3| p@)
                    + spec_collision_list(ray, next@.skip(k as int + 1), triangle_data.0@, *transform)));
                assert((collisions@ + sub@).map_values(|p: RatVec3| p@) =~= collisions@.map_values(
                    |p: RatVec3| p@,
                ) + sub@.map_values(|p: RatVec3| p@));
            }
            collisions.append(&mut sub);
            k = k + 1;
        }
        proof {
            assert(next@.skip(next@.len() as int) =~= Seq::<RecursiveAABB>::empty());
            assert(collisions@.map_values(|p: RatVec3| p@) + Seq::<Q3>::empty() =~= collisions@.map_values(
                |p: RatVec3| p@,
            ));
        }
    } else {
        let enclosed = &recursive_aabb.enclosed;
        let mut j: usize = 0;
        proof {
            assert(enclosed@.take(0) =~= Seq::<usize>::empty());
            assert(collisions@.map_values(|p: RatVec3| p@) =~= Seq::<Q3>::empty());
        }
        while j < enclosed.len()
            invariant
                ray_in_range(ray),
                forall|i: int|
                    0 <= i < triangle_data.0@.len() ==> tri_in_range(#[trigger] triangle_data.0@[i]),
                transform_entries_small(*transform),
                transform_maps_tris_in_range(*transform, triangle_data.0@),
                forall|jj: int|
                    0 <= jj < enclosed@.len() ==> (#[trigger] enclosed@[jj]) < triangle_data.0@.len(),
                0 <= j <= enclosed@.len(),
                collisions@.map_values(|p: RatVec3| p@) == spec_leaf_hits(
                    ray,
                    enclosed@.take(j as int),
                    triangle_data.0@,
                    *transform,
                ),
            decreases enclosed@.len() - j,
        {
            let idx = enclosed[j];
            let verts = &triangle_data.0[idx].vertices;
            let ta = transform.transform_point3(verts[0]);
            let tb = transform.transform_point3(verts[1]);
            let tc = transform.transform_point3(verts[2]);
            proof {
                assert(ta.m() == spec_world_vertex(*transform, triangle_data.0@, idx as int, 0));
                assert(tb.m() == spec_world_vertex(*transform, triangle_data.0@, idx as int, 1));
                assert(tc.m() == spec_world_vertex(*transform, triangle_data.0@, idx as int, 2));
                assert(enclosed@.take(j as int + 1).drop_last() =~= enclosed@.take(j as int));
                assert(enclosed@.take(j as int + 1).last() == enclosed@[j as int]);
            }
            let plane = plane_from_points(ta, tb, tc);
            let t = ray_plane_intersect(ray, plane);
            let ghost pre = collisions@;
            match t {
                Tval::Finite { num, den } => {
                    let q = ray.at(num, den);
                    if point_in_tri(&q, &[ta, tb, tc]) {
                        collisions.push(q);
                        proof {
                            assert(pre.push(q).map_values(|p: RatVec3| p@) =~= pre.map_values(
                                |p: RatVec3| p@,
                            ).push(q@));
                        }
                    }
                },
                _ => {},
            }
            j = j + 1;
        }
        proof {
            assert(enclosed@.take(enclosed@.len() as int) =~= enclosed@);
        }
    }
    collisions
}

/// The transformed corners of a box, as the model sees them.
pub open spec fn spec_corners_of(t: Affine3, b: AABB) -> Seq<Vec3i> {
    seq![
        vec3i_of(spec_transform_point(t, spec_aabb_vertex(b, 0).m())),
        vec3i_of(spec_transform_point(t, spec_aabb_vertex(b, 1).m())),
        vec3i_of(spec_transform_point(t, spec_aabb_vertex(b, 2).m())),
        vec3i_of(spec_transform_point(t, spec_aabb_vertex(b, 3).m())),
        vec3i_of(spec_transform_point(t, spec_aabb_vertex(b, 4).m())),
        vec3i_of(spec_transform_point(t, spec_aabb_vertex(b, 5).m())),
        vec3i_of(spec_transform_point(t, spec_aabb_vertex(b, 6).m())),
        vec3i_of(spec_transform_point(t, spec_aabb_vertex(b, 7).m())),
    ]
}

// What follows proves the pruning law of the tree walk: a ray that the slab
// test reports inside a nested box is also reported inside the enclosing box.
// The proof works on the exact finite intersection parameters, so it covers
// boxes with volume and rays not parallel to a coordinate axis; a flat box or
// an axis-parallel ray makes some parameter infinite or absent.

/// The eight corners of a box in the fixed winding, as the slab test reads
/// them.
pub open spec fn spec_box_corners(b: AABB) -> Seq<Vec3i> {
    seq![
        spec_aabb_vertex(b, 0),
        spec_aabb_vertex(b, 1),
        spec_aabb_vertex(b, 2),
        spec_aabb_vertex(b, 3),
        spec_aabb_vertex(b, 4),
        spec_aabb_vertex(b, 5),
        spec_aabb_vertex(b, 6),
        spec_aabb_vertex(b, 7),
    ]
}

/// A finite parameter with a positive denominator.
spec fn fin_wf(t: TvalModel) -> bool {
    match t {
        TvalModel::Finite { num, den } => den > 0,
        _ => false,
    }
}

spec fn fnum(t: TvalModel) -> int {
    match t {
        TvalModel::Finite { num, den } => num,
        _ => 0,
    }
}

spec fn fden(t: TvalModel) -> int {
    match t {
        TvalModel::Finite { num, den } => den,
        _ => 1,
    }
}

/// Value order on finite parameters: `a <= b` as rationals.
spec fn rat_le(a: TvalModel, b: TvalModel) -> bool {
    fnum(a) * fden(b) <= fnum(b) * fden(a)
}

proof fn lemma_rat_le_trans(a: TvalModel, b: TvalModel, c: TvalModel)
    requires
        fin_wf(a),
        fin_wf(b),
        fin_wf(c),
        rat_le(a, b),
        rat_le(b, c),
    ensures
        rat_le(a, c),
{
    assert(fnum(a) * fden(c) <= fnum(c) * fden(a)) by (nonlinear_arith)
        requires
            fden(a) > 0,
            fden(b) > 0,
            fden(c) > 0,
            fnum(a) * fden(b) <= fnum(b) * fden(a),
            fnum(b) * fden(c) <= fnum(c) * fden(b),
    ;
}

proof fn lemma_le_lt_trans(a: TvalModel, b: TvalModel, c: TvalModel)
    requires
        fin_wf(a),
        fin_wf(b),
        fin_wf(c),
        rat_le(a, b),
        spec_tval_lt(b, c),
    ensures
        spec_tval_lt(a, c),
{
    assert(fnum(b) * fden(c) < fnum(c) * fden(b));
    assert(fnum(a) * fden(c) < fnum(c) * fden(a)) by (nonlinear_arith)
        requires
            fden(a) > 0,
            fden(b) > 0,
            fden(c) > 0,
            fnum(a) * fden(b) <= fnum(b) * fden(a),
            fnum(b) * fden(c) < fnum(c) * fden(b),
    ;
}

proof fn lemma_lt_le_trans(a: TvalModel, b: TvalModel, c: TvalModel)
    requires
        fin_wf(a),
        fin_wf(b),
        fin_wf(c),
        spec_tval_lt(a, b),
        rat_le(b, c),
    ensures
        spec_tval_lt(a, c),
{
    assert(fnum(a) * fden(b) < fnum(b) * fden(a));
    assert(fnum(a) * fden(c) < fnum(c) * fden(a)) by (nonlinear_arith)
        requires
            fden(a) > 0,
            fden(b) > 0,
            fden(c) > 0,
            fnum(a) * fden(b) < fnum(b) * fden(a),
            fnum(b) * fden(c) <= fnum(c) * fden(b),
    ;
}

proof fn lemma_min_le(a: TvalModel, b: TvalModel)
    requires
        fin_wf(a),
        fin_wf(b),
    ensures
        fin_wf(spec_tval_min(a, b)),
        spec_tval_min(a, b) == a || spec_tval_min(a, b) == b,
        rat_le(spec_tval_min(a, b), a),
        rat_le(spec_tval_min(a, b), b),
{
}

proof fn lemma_max_ge(a: TvalModel, b: TvalModel)
    requires
        fin_wf(a),
        fin_wf(b),
    ensures
        fin_wf(spec_tval_max(a, b)),
        spec_tval_max(a, b) == a || spec_tval_max(a, b) == b,
        rat_le(a, spec_tval_max(a, b)),
        rat_le(b, spec_tval_max(a, b)),
{
}

proof fn lemma_max_mono(a1: TvalModel, a2: TvalModel, b1: TvalModel, b2: TvalModel)
    requires
        fin_wf(a1),
        fin_wf(a2),
        fin_wf(b1),
        fin_wf(b2),
        rat_le(a1, b1),
        rat_le(a2, b2),
    ensures
        rat_le(spec_tval_max(a1, a2), spec_tval_max(b1, b2)),
{
    lemma_max_ge(a1, a2);
    lemma_max_ge(b1, b2);
    if spec_tval_max(a1, a2) == a1 {
        lemma_rat_le_trans(a1, b1, spec_tval_max(b1, b2));
    } else {
        lemma_rat_le_trans(a2, b2, spec_tval_max(b1, b2));
    }
}

proof fn lemma_min_mono(a1: TvalModel, a2: TvalModel, b1: TvalModel, b2: TvalModel)
    requires
        fin_wf(a1),
        fin_wf(a2),
        fin_wf(b1),
        fin_wf(b2),
        rat_le(a1, b1),
        rat_le(a2, b2),
    ensures
        rat_le(spec_tval_min(a1, a2), spec_tval_min(b1, b2)),
{
    lemma_min_le(a1, a2);
    lemma_min_le(b1, b2);
    if spec_tval_min(b1, b2) == b1 {
        lemma_rat_le_trans(spec_tval_min(a1, a2), a1, b1);
    } else {
        lemma_rat_le_trans(spec_tval_min(a1, a2), a2, b2);
    }
}


/// Magnitude of the normal the slab test derives for the two `x`-faces of an
/// axis-aligned box: the product of the other two extents.
spec fn coeff_x(b: AABB) -> int {
    (b.max.z - b.min.z) * (b.max.y - b.min.y)
}

spec fn coeff_y(b: AABB) -> int {
    (b.max.z - b.min.z) * (b.max.x - b.min.x)
}

spec fn coeff_z(b: AABB) -> int {
    (b.max.x - b.min.x) * (b.max.y - b.min.y)
}

proof fn lemma_classify_neg(n: int, d: int)
    requires
        d != 0,
    ensures
        spec_tval_classify(-n, -d) == spec_tval_classify(n, d),
{
}

/// For a box with volume and a ray not parallel to any axis, the six slab
/// parameters reduce to the face-plane crossings of the three axes, each
/// scaled by the (positive) magnitude of that face pair's normal.
proof fn lemma_plane_forms(ray: Ray3d, b: AABB)
    requires
        aabb_proper(b),
        ray.dir.x != 0,
        ray.dir.y != 0,
        ray.dir.z != 0,
    ensures
        spec_plane_t(ray, spec_aabb_vertex(b, 0).m(), spec_aabb_vertex(b, 1).m(), spec_aabb_vertex(b, 7).m())
            == spec_tval_classify(coeff_x(b) * (b.min.x - ray.origin.x), coeff_x(b) * ray.dir.x),
        spec_plane_t(ray, spec_aabb_vertex(b, 3).m(), spec_aabb_vertex(b, 2).m(), spec_aabb_vertex(b, 4).m())
            == spec_tval_classify(coeff_x(b) * (b.max.x - ray.origin.x), coeff_x(b) * ray.dir.x),
        spec_plane_t(ray, spec_aabb_vertex(b, 0).m(), spec_aabb_vertex(b, 3).m(), spec_aabb_vertex(b, 5).m())
            == spec_tval_classify(coeff_z(b) * (b.min.z - ray.origin.z), coeff_z(b) * ray.dir.z),
        spec_plane_t(ray, spec_aabb_vertex(b, 1).m(), spec_aabb_vertex(b, 2).m(), spec_aabb_vertex(b, 4).m())
            == spec_tval_classify(coeff_z(b) * (b.max.z - ray.origin.z), coeff_z(b) * ray.dir.z),
        spec_plane_t(ray, spec_aabb_vertex(b, 0).m(), spec_aabb_vertex(b, 1).m(), spec_aabb_vertex(b, 2).m())
            == spec_tval_classify(coeff_y(b) * (b.min.y - ray.origin.y), coeff_y(b) * ray.dir.y),
        spec_plane_t(ray, spec_aabb_vertex(b, 4).m(), spec_aabb_vertex(b, 5).m(), spec_aabb_vertex(b, 6).m())
            == spec_tval_classify(coeff_y(b) * (b.max.y - ray.origin.y), coeff_y(b) * ray.dir.y),
{
    let o = ray.origin.m();
    let r = ray.dir.m();
    let dx = b.max.x - b.min.x as int;
    let dy = b.max.y - b.min.y as int;
    let dz = b.max.z - b.min.z as int;
    crate::arith::lemma_zero_mul(0);
    crate::arith::lemma_zero_mul(dx);
    crate::arith::lemma_zero_mul(dy);
    crate::arith::lemma_zero_mul(dz);
    crate::arith::lemma_zero_mul(-dx);
    crate::arith::lemma_zero_mul(-dz);
    crate::arith::lemma_zero_mul(r.x);
    crate::arith::lemma_zero_mul(r.y);
    crate::arith::lemma_zero_mul(r.z);
    crate::arith::lemma_zero_mul(o.x);
    crate::arith::lemma_zero_mul(o.y);
    crate::arith::lemma_zero_mul(o.z);
    crate::arith::lemma_zero_mul(b.min.x as int);
    crate::arith::lemma_zero_mul(b.min.y as int);
    crate::arith::lemma_zero_mul(b.min.z as int);
    crate::arith::lemma_zero_mul(b.max.x as int);
    crate::arith::lemma_zero_mul(b.max.y as int);
    crate::arith::lemma_zero_mul(b.max.z as int);
    crate::arith::lemma_mul_pos(dz, dy);
    crate::arith::lemma_mul_pos(dz, dx);
    crate::arith::lemma_mul_pos(dx, dy);
    crate::arith::lemma_neg_mul(dz, dx);
    let cx = dz * dy;
    let cy = dz * dx;
    let cz = dx * dy;
    crate::arith::lemma_neg_mul(cx, r.x);
    crate::arith::lemma_neg_mul(cx, o.x);
    crate::arith::lemma_neg_mul(cx, b.min.x as int);
    crate::arith::lemma_neg_mul(cx, b.max.x as int);
    crate::arith::lemma_mul_sub(cx, b.min.x as int, o.x);
    crate::arith::lemma_mul_sub(cx, b.max.x as int, o.x);
    crate::arith::lemma_mul_sub(cy, b.min.y as int, o.y);
    crate::arith::lemma_mul_sub(cy, b.max.y as int, o.y);
    crate::arith::lemma_mul_sub(cz, b.min.z as int, o.z);
    crate::arith::lemma_mul_sub(cz, b.max.z as int, o.z);
    crate::arith::lemma_mul_nonzero(cx, r.x);

    // Pair for the x faces: both planes have normal (-cx, 0, 0).
    let v0 = spec_aabb_vertex(b, 0).m();
    let v1 = spec_aabb_vertex(b, 1).m();
    let v2 = spec_aabb_vertex(b, 2).m();
    let v3 = spec_aabb_vertex(b, 3).m();
    let v4 = spec_aabb_vertex(b, 4).m();
    let v5 = spec_aabb_vertex(b, 5).m();
    let v6 = spec_aabb_vertex(b, 6).m();
    let v7 = spec_aabb_vertex(b, 7).m();
    assert(w3_sub(v1, v0) == (W3 { x: 0, y: 0, z: dz }));
    assert(w3_sub(v7, v0) == (W3 { x: 0, y: dy, z: dz }));
    assert(w3_cross(w3_sub(v1, v0), w3_sub(v7, v0)) == (W3 { x: -cx, y: 0, z: 0 }));
    assert(w3_dot(W3 { x: -cx, y: 0, z: 0 }, r) == -(cx * r.x));
    assert(w3_dot(W3 { x: -cx, y: 0, z: 0 }, v0) == -(cx * (b.min.x as int)));
    assert(w3_dot(W3 { x: -cx, y: 0, z: 0 }, o) == -(cx * o.x));
    assert(spec_plane_t(ray, v0, v1, v7) == spec_tval_classify(
        -(cx * (b.min.x - ray.origin.x)),
        -(cx * r.x),
    ));
    lemma_classify_neg(cx * (b.min.x - ray.origin.x), cx * r.x);

    assert(w3_sub(v2, v3) == (W3 { x: 0, y: 0, z: dz }));
    assert(w3_sub(v4, v3) == (W3 { x: 0, y: dy, z: dz }));
    assert(w3_cross(w3_sub(v2, v3), w3_sub(v4, v3)) == (W3 { x: -cx, y: 0, z: 0 }));
    assert(w3_dot(W3 { x: -cx, y: 0, z: 0 }, v3) == -(cx * (b.max.x as int)));
    assert(spec_plane_t(ray, v3, v2, v4) == spec_tval_classify(
        -(cx * (b.max.x - ray.origin.x)),
        -(cx * r.x),
    ));
    lemma_classify_neg(cx * (b.max.x - ray.origin.x), cx * r.x);

    // Pair for the z faces: both planes have normal (0, 0, cz).
    assert(w3_sub(v3, v0) == (W3 { x: dx, y: 0, z: 0 }));
    assert(w3_sub(v5, v0) == (W3 { x: dx, y: dy, z: 0 }));
    assert(w3_cross(w3_sub(v3, v0), w3_sub(v5, v0)) == (W3 { x: 0, y: 0, z: cz }));
    assert(w3_dot(W3 { x: 0, y: 0, z: cz }, r) == cz * r.z);
    assert(w3_dot(W3 { x: 0, y: 0, z: cz }, v0) == cz * (b.min.z as int));
    assert(w3_dot(W3 { x: 0, y: 0, z: cz }, o) == cz * o.z);
    assert(spec_plane_t(ray, v0, v3, v5) == spec_tval_classify(
        cz * (b.min.z - ray.origin.z),
        cz * r.z,
    ));

    assert(w3_sub(v2, v1) == (W3 { x: dx, y: 0, z: 0 }));
    assert(w3_sub(v4, v1) == (W3 { x: dx, y: dy, z: 0 }));
    assert(w3_cross(w3_sub(v2, v1), w3_sub(v4, v1)) == (W3 { x: 0, y: 0, z: cz }));
    assert(w3_dot(W3 { x: 0, y: 0, z: cz }, v1) == cz * (b.max.z as int));
    assert(spec_plane_t(ray, v1, v2, v4) == spec_tval_classify(
        cz * (b.max.z - ray.origin.z),
        cz * r.z,
    ));

    // Pair for the y faces: both planes have normal (0, cy, 0).
    assert(w3_sub(v2, v0) == (W3 { x: dx, y: 0, z: dz }));
    assert(w3_cross(w3_sub(v1, v0), w3_sub(v2, v0)) == (W3 { x: 0, y: cy, z: 0 }));
    assert(w3_dot(W3 { x: 0, y: cy, z: 0 }, r) == cy * r.y);
    assert(w3_dot(W3 { x: 0, y: cy, z: 0 }, v0) == cy * (b.min.y as int));
    assert(w3_dot(W3 { x: 0, y: cy, z: 0 }, o) == cy * o.y);
    assert(spec_plane_t(ray, v0, v1, v2) == spec_tval_classify(
        cy * (b.min.y - ray.origin.y),
        cy * r.y,
    ));

    assert(w3_sub(v5, v4) == (W3 { x: 0, y: 0, z: -dz }));
    assert(w3_sub(v6, v4) == (W3 { x: -dx, y: 0, z: -dz }));
    assert(w3_cross(w3_sub(v5, v4), w3_sub(v6, v4)) == (W3 { x: 0, y: cy, z: 0 }));
    assert(w3_dot(W3 { x: 0, y: cy, z: 0 }, v4) == cy * (b.max.y as int));
    assert(spec_plane_t(ray, v4, v5, v6) == spec_tval_classify(
        cy * (b.max.y - ray.origin.y),
        cy * r.y,
    ));
}

/// One axis of the pruning argument: the ordered pair of face crossings of
/// the outer interval brackets that of the inner interval, in the exact
/// rational order, whatever the (positive) normal magnitudes of the two
/// boxes are.
proof fn lemma_axis_bracket(
    o: int,
    r: int,
    ci: int,
    co: int,
    li: int,
    hi: int,
    lo: int,
    ho: int,
)
    requires
        r != 0,
        ci > 0,
        co > 0,
        lo <= li,
        li < hi,
        hi <= ho,
    ensures
        fin_wf(spec_tval_classify(ci * (li - o), ci * r)),
        fin_wf(spec_tval_classify(ci * (hi - o), ci * r)),
        fin_wf(spec_tval_classify(co * (lo - o), co * r)),
        fin_wf(spec_tval_classify(co * (ho - o), co * r)),
        rat_le(
            spec_tval_min(
                spec_tval_classify(co * (lo - o), co * r),
                spec_tval_classify(co * (ho - o), co * r),
            ),
            spec_tval_min(
                spec_tval_classify(ci * (li - o), ci * r),
                spec_tval_classify(ci * (hi - o), ci * r),
            ),
        ),
        rat_le(
            spec_tval_max(
                spec_tval_classify(ci * (li - o), ci * r),
                spec_tval_classify(ci * (hi - o), ci * r),
            ),
            spec_tval_max(
                spec_tval_classify(co * (lo - o), co * r),
                spec_tval_classify(co * (ho - o), co * r),
            ),
        ),
{
    let ui = spec_tval_classify(ci * (li - o), ci * r);
    let vi = spec_tval_classify(ci * (hi - o), ci * r);
    let uo = spec_tval_classify(co * (lo - o), co * r);
    let vo = spec_tval_classify(co * (ho - o), co * r);
    if r > 0 {
        crate::arith::lemma_mul_pos(ci, r);
        crate::arith::lemma_mul_pos(co, r);
        assert(ui == TvalModel::Finite { num: ci * (li - o), den: ci * r });
        assert(vi == TvalModel::Finite { num: ci * (hi - o), den: ci * r });
        assert(uo == TvalModel::Finite { num: co * (lo - o), den: co * r });
        assert(vo == TvalModel::Finite { num: co * (ho - o), den: co * r });
        assert((ci * (li - o)) * (ci * r) < (ci * (hi - o)) * (ci * r)) by (nonlinear_arith)
            requires
                ci > 0,
                r > 0,
                li < hi,
        ;
        assert((co * (lo - o)) * (co * r) < (co * (ho - o)) * (co * r)) by (nonlinear_arith)
            requires
                co > 0,
                r > 0,
                lo < ho,
        ;
        assert(spec_tval_min(ui, vi) == ui);
        assert(spec_tval_max(ui, vi) == vi);
        assert(spec_tval_min(uo, vo) == uo);
        assert(spec_tval_max(uo, vo) == vo);
        assert((co * (lo - o)) * (ci * r) <= (ci * (li - o)) * (co * r)) by (nonlinear_arith)
            requires
                ci > 0,
                co > 0,
                r > 0,
                lo <= li,
        ;
        assert((ci * (hi - o)) * (co * r) <= (co * (ho - o)) * (ci * r)) by (nonlinear_arith)
            requires
                ci > 0,
                co > 0,
                r > 0,
                hi <= ho,
        ;
    } else {
        assert(ci * r < 0) by (nonlinear_arith)
            requires
                ci > 0,
                r < 0,
        ;
        assert(co * r < 0) by (nonlinear_arith)
            requires
                co > 0,
                r < 0,
        ;
        assert(ui == TvalModel::Finite { num: -(ci * (li - o)), den: -(ci * r) });
        assert(vi == TvalModel::Finite { num: -(ci * (hi - o)), den: -(ci * r) });
        assert(uo == TvalModel::Finite { num: -(co * (lo - o)), den: -(co * r) });
        assert(vo == TvalModel::Finite { num: -(co * (ho - o)), den: -(co * r) });
        assert((-(ci * (hi - o))) * (-(ci * r)) < (-(ci * (li - o))) * (-(ci * r)))
            by (nonlinear_arith)
            requires
                ci > 0,
                r < 0,
                li < hi,
        ;
        assert((-(co * (ho - o))) * (-(co * r)) < (-(co * (lo - o))) * (-(co * r)))
            by (nonlinear_arith)
            requires
                co > 0,
                r < 0,
                lo < ho,
        ;
        assert(spec_tval_min(ui, vi) == vi);
        assert(spec_tval_max(ui, vi) == ui);
        assert(spec_tval_min(uo, vo) == vo);
        assert(spec_tval_max(uo, vo) == uo);
        assert((-(co * (ho - o))) * (-(ci * r)) <= (-(ci * (hi - o))) * (-(co * r)))
            by (nonlinear_arith)
            requires
                ci > 0,
                co > 0,
                r < 0,
                hi <= ho,
        ;
        assert((-(ci * (li - o))) * (-(co * r)) <= (-(co * (lo - o))) * (-(ci * r)))
            by (nonlinear_arith)
            requires
                ci > 0,
                co > 0,
                r < 0,
                lo <= li,
        ;
    }
}

/// Box-hit monotonicity, the pruning law of the tree walk: a ray the slab
/// test places inside a nested box is also placed inside the enclosing box,
/// so pruning a subtree whose box the ray misses never discards a hit. It is
/// stated for boxes with volume and for rays not parallel to a coordinate
/// axis: there every face crossing is a finite parameter. (A box that is flat
/// on some axis yields an empty parameter interval and reports no hit at
/// all, and for an axis-parallel ray the crossing parameters degenerate to
/// infinities or to no value.)
pub proof fn lemma_box_hit_monotone(ray: Ray3d, inner: AABB, outer: AABB)
    requires
        aabb_proper(inner),
        aabb_proper(outer),
        aabb_contained_in(inner, outer),
        ray.dir.x != 0,
        ray.dir.y != 0,
        ray.dir.z != 0,
        spec_ray_intersects_box(ray, spec_box_corners(inner)),
    ensures
        spec_ray_intersects_box(ray, spec_box_corners(outer)),
{
    lemma_plane_forms(ray, inner);
    lemma_plane_forms(ray, outer);
    crate::arith::lemma_mul_pos(inner.max.z - inner.min.z, inner.max.y - inner.min.y);
    crate::arith::lemma_mul_pos(inner.max.z - inner.min.z, inner.max.x - inner.min.x);
    crate::arith::lemma_mul_pos(inner.max.x - inner.min.x, inner.max.y - inner.min.y);
    crate::arith::lemma_mul_pos(outer.max.z - outer.min.z, outer.max.y - outer.min.y);
    crate::arith::lemma_mul_pos(outer.max.z - outer.min.z, outer.max.x - outer.min.x);
    crate::arith::lemma_mul_pos(outer.max.x - outer.min.x, outer.max.y - outer.min.y);
    lemma_axis_bracket(
        ray.origin.x as int,
        ray.dir.x as int,
        coeff_x(inner),
        coeff_x(outer),
        inner.min.x as int,
        inner.max.x as int,
        outer.min.x as int,
        outer.max.x as int,
    );
    lemma_axis_bracket(
        ray.origin.z as int,
        ray.dir.z as int,
        coeff_z(inner),
        coeff_z(outer),
        inner.min.z as int,
        inner.max.z as int,
        outer.min.z as int,
        outer.max.z as int,
    );
    lemma_axis_bracket(
        ray.origin.y as int,
        ray.dir.y as int,
        coeff_y(inner),
        coeff_y(outer),
        inner.min.y as int,
        inner.max.y as int,
        outer.min.y as int,
        outer.max.y as int,
    );
    let lo1i = spec_tval_min(
        spec_tval_classify(coeff_x(inner) * (inner.min.x - ray.origin.x), coeff_x(inner) * ray.dir.x),
        spec_tval_classify(coeff_x(inner) * (inner.max.x - ray.origin.x), coeff_x(inner) * ray.dir.x),
    );
    let hi1i = spec_tval_max(
        spec_tval_classify(coeff_x(inner) * (inner.min.x - ray.origin.x), coeff_x(inner) * ray.dir.x),
        spec_tval_classify(coeff_x(inner) * (inner.max.x - ray.origin.x), coeff_x(inner) * ray.dir.x),
    );
    let lo2i = spec_tval_min(
        spec_tval_classify(coeff_z(inner) * (inner.min.z - ray.origin.z), coeff_z(inner) * ray.dir.z),
        spec_tval_classify(coeff_z(inner) * (inner.max.z - ray.origin.z), coeff_z(inner) * ray.dir.z),
    );
    let hi2i = spec_tval_max(
        spec_tval_classify(coeff_z(inner) * (inner.min.z - ray.origin.z), coeff_z(inner) * ray.dir.z),
        spec_tval_classify(coeff_z(inner) * (inner.max.z - ray.origin.z), coeff_z(inner) * ray.dir.z),
    );
    let lo3i = spec_tval_min(
        spec_tval_classify(coeff_y(inner) * (inner.min.y - ray.origin.y), coeff_y(inner) * ray.dir.y),
        spec_tval_classify(coeff_y(inner) * (inner.max.y - ray.origin.y), coeff_y(inner) * ray.dir.y),
    );
    let hi3i = spec_tval_max(
        spec_tval_classify(coeff_y(inner) * (inner.min.y - ray.origin.y), coeff_y(inner) * ray.dir.y),
        spec_tval_classify(coeff_y(inner) * (inner.max.y - ray.origin.y), coeff_y(inner) * ray.dir.y),
    );
    let lo1o = spec_tval_min(
        spec_tval_classify(coeff_x(outer) * (outer.min.x - ray.origin.x), coeff_x(outer) * ray.dir.x),
        spec_tval_classify(coeff_x(outer) * (outer.max.x - ray.origin.x), coeff_x(outer) * ray.dir.x),
    );
    let hi1o = spec_tval_max(
        spec_tval_classify(coeff_x(outer) * (outer.min.x - ray.origin.x), coeff_x(outer) * ray.dir.x),
        spec_tval_classify(coeff_x(outer) * (outer.max.x - ray.origin.x), coeff_x(outer) * ray.dir.x),
    );
    let lo2o = spec_tval_min(
        spec_tval_classify(coeff_z(outer) * (outer.min.z - ray.origin.z), coeff_z(outer) * ray.dir.z),
        spec_tval_classify(coeff_z(outer) * (outer.max.z - ray.origin.z), coeff_z(outer) * ray.dir.z),
    );
    let hi2o = spec_tval_max(
        spec_tval_classify(coeff_z(outer) * (outer.min.z - ray.origin.z), coeff_z(outer) * ray.dir.z),
        spec_tval_classify(coeff_z(outer) * (outer.max.z - ray.origin.z), coeff_z(outer) * ray.dir.z),
    );
    let lo3o = spec_tval_min(
        spec_tval_classify(coeff_y(outer) * (outer.min.y - ray.origin.y), coeff_y(outer) * ray.dir.y),
        spec_tval_classify(coeff_y(outer) * (outer.max.y - ray.origin.y), coeff_y(outer) * ray.dir.y),
    );
    let hi3o = spec_tval_max(
        spec_tval_classify(coeff_y(outer) * (outer.min.y - ray.origin.y), coeff_y(outer) * ray.dir.y),
        spec_tval_classify(coeff_y(outer) * (outer.max.y - ray.origin.y), coeff_y(outer) * ray.dir.y),
    );
    let loi = spec_tval_max(spec_tval_max(lo1i, lo2i), lo3i);
    let hii = spec_tval_min(spec_tval_min(hi1i, hi2i), hi3i);
    let loo = spec_tval_max(spec_tval_max(lo1o, lo2o), lo3o);
    let hio = spec_tval_min(spec_tval_min(hi1o, hi2o), hi3o);
    lemma_min_le(
        spec_tval_classify(coeff_x(inner) * (inner.min.x - ray.origin.x), coeff_x(inner) * ray.dir.x),
        spec_tval_classify(coeff_x(inner) * (inner.max.x - ray.origin.x), coeff_x(inner) * ray.dir.x),
    );
    lemma_max_ge(
        spec_tval_classify(coeff_x(inner) * (inner.min.x - ray.origin.x), coeff_x(inner) * ray.dir.x),
        spec_tval_classify(coeff_x(inner) * (inner.max.x - ray.origin.x), coeff_x(inner) * ray.dir.x),
    );
    lemma_min_le(
        spec_tval_classify(coeff_z(inner) * (inner.min.z - ray.origin.z), coeff_z(inner) * ray.dir.z),
        spec_tval_classify(coeff_z(inner) * (inner.max.z - ray.origin.z), coeff_z(inner) * ray.dir.z),
    );
    lemma_max_ge(
        spec_tval_classify(coeff_z(inner) * (inner.min.z - ray.origin.z), coeff_z(inner) * ray.dir.z),
        spec_tval_classify(coeff_z(inner) * (inner.max.z - ray.origin.z), coeff_z(inner) * ray.dir.z),
    );
    lemma_min_le(
        spec_tval_classify(coeff_y(inner) * (inner.min.y - ray.origin.y), coeff_y(inner) * ray.dir.y),
        spec_tval_classify(coeff_y(inner) * (inner.max.y - ray.origin.y), coeff_y(inner) * ray.dir.y),
    );
    lemma_max_ge(
        spec_tval_classify(coeff_y(inner) * (inner.min.y - ray.origin.y), coeff_y(inner) * ray.dir.y),
        spec_tval_classify(coeff_y(inner) * (inner.max.y - ray.origin.y), coeff_y(inner) * ray.dir.y),
    );
    lemma_min_le(
        spec_tval_classify(coeff_x(outer) * (outer.min.x - ray.origin.x), coeff_x(outer) * ray.dir.x),
        spec_tval_classify(coeff_x(outer) * (outer.max.x - ray.origin.x), coeff_x(outer) * ray.dir.x),
    );
    lemma_max_ge(
        spec_tval_classify(coeff_x(outer) * (outer.min.x - ray.origin.x), coeff_x(outer) * ray.dir.x),
        spec_tval_classify(coeff_x(outer) * (outer.max.x - ray.origin.x), coeff_x(outer) * ray.dir.x),
    );
    lemma_min_le(
        spec_tval_classify(coeff_z(outer) * (outer.min.z - ray.origin.z), coeff_z(outer) * ray.dir.z),
        spec_tval_classify(coeff_z(outer) * (outer.max.z - ray.origin.z), coeff_z(outer) * ray.dir.z),
    );
    lemma_max_ge(
        spec_tval_classify(coeff_z(outer) * (outer.min.z - ray.origin.z), coeff_z(outer) * ray.dir.z),
        spec_tval_classify(coeff_z(outer) * (outer.max.z - ray.origin.z), coeff_z(outer) * ray.dir.z),
    );
    lemma_min_le(
        spec_tval_classify(coeff_y(outer) * (outer.min.y - ray.origin.y), coeff_y(outer) * ray.dir.y),
        spec_tval_classify(coeff_y(outer) * (outer.max.y - ray.origin.y), coeff_y(outer) * ray.dir.y),
    );
    lemma_max_ge(
        spec_tval_classify(coeff_y(outer) * (outer.min.y - ray.origin.y), coeff_y(outer) * ray.dir.y),
        spec_tval_classify(coeff_y(outer) * (outer.max.y - ray.origin.y), coeff_y(outer) * ray.dir.y),
    );
    lemma_max_mono(lo1o, lo2o, lo1i, lo2i);
    lemma_max_ge(lo1o, lo2o);
    lemma_max_ge(lo1i, lo2i);
    lemma_max_mono(spec_tval_max(lo1o, lo2o), lo3o, spec_tval_max(lo1i, lo2i), lo3i);
    lemma_min_mono(hi1i, hi2i, hi1o, hi2o);
    lemma_min_le(hi1i, hi2i);
    lemma_min_le(hi1o, hi2o);
    lemma_min_mono(spec_tval_min(hi1i, hi2i), hi3i, spec_tval_min(hi1o, hi2o), hi3o);
    lemma_max_ge(spec_tval_max(lo1o, lo2o), lo3o);
    lemma_max_ge(spec_tval_max(lo1i, lo2i), lo3i);
    lemma_min_le(spec_tval_min(hi1i, hi2i), hi3i);
    lemma_min_le(spec_tval_min(hi1o, hi2o), hi3o);
    assert(spec_tval_lt(loi, hii));
    lemma_le_lt_trans(loo, loi, hii);
    lemma_lt_le_trans(loo, hii, hio);
    assert(spec_tval_lt(loo, hio));
}

} // verus!
