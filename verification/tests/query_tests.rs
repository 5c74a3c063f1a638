use octree_collision::bbox::{aabb_vertices, split_octants, AABB};
use octree_collision::math::{RatVec3, Ray3d, Triangle3d, Vec3i};
use octree_collision::query::{collision, ray_intersects_box, Affine3};
use octree_collision::tree::{construct_collision_trees, TriangleData};

fn v(x: i64, y: i64, z: i64) -> Vec3i {
    Vec3i::new(x, y, z)
}

fn ray(ox: i64, oy: i64, oz: i64, dx: i64, dy: i64, dz: i64) -> Ray3d {
    Ray3d { origin: v(ox, oy, oz), dir: v(dx, dy, dz) }
}

// An independent reference for the ray/box test: the classic slab algorithm
// on f64, with the IEEE infinity and NaN behaviour of the float code the
// library's exact arithmetic reproduces.
fn brute_force_hit(r: Ray3d, b: AABB) -> bool {
    let o = [r.origin.x as f64, r.origin.y as f64, r.origin.z as f64];
    let d = [r.dir.x as f64, r.dir.y as f64, r.dir.z as f64];
    let lo = [b.min.x as f64, b.min.y as f64, b.min.z as f64];
    let hi = [b.max.x as f64, b.max.y as f64, b.max.z as f64];
    let mut tmin = f64::NEG_INFINITY;
    let mut tmax = f64::INFINITY;
    for a in 0..3 {
        let t1 = (lo[a] - o[a]) / d[a];
        let t2 = (hi[a] - o[a]) / d[a];
        tmin = tmin.max(t1.min(t2));
        tmax = tmax.min(t1.max(t2));
    }
    tmin < tmax
}

#[test]
fn slab_test_basic_hits_and_misses() {
    let b = AABB::new(v(-3, -3, -3), v(3, 3, 3));
    let c = aabb_vertices(b);
    assert!(ray_intersects_box(ray(-10, 0, 0, 1, 0, 0), &c));
    assert!(ray_intersects_box(ray(0, 0, 0, 1, 0, 0), &c));
    assert!(ray_intersects_box(ray(10, 10, 10, -1, -1, -1), &c));
    // Pointing away still hits: the slab test accepts intersections behind
    // the origin (its interval is not clipped at zero).
    assert!(ray_intersects_box(ray(-10, 0, 0, -1, 0, 0), &c));
    // Aimed past the box.
    assert!(!ray_intersects_box(ray(-10, 10, 0, 1, 0, 0), &c));
    assert!(!ray_intersects_box(ray(-10, 0, 0, 0, 0, 1), &c));
    // Parallel to an axis inside the box's shadow but outside the box.
    assert!(!ray_intersects_box(ray(-10, 5, 5, 1, 0, 0), &c));
}

#[test]
fn slab_test_agrees_with_brute_force() {
    let boxes = [
        AABB::new(v(-4, -4, -4), v(4, 4, 4)),
        AABB::new(v(-4, -2, -1), v(3, 5, 7)),
        AABB::new(v(1, 1, 1), v(9, 4, 3)),
    ];
    let rays = [
        ray(-10, 0, 0, 1, 0, 0),
        ray(-10, 2, 3, 1, 0, 0),
        ray(0, -20, 0, 0, 1, 0),
        ray(-10, -10, -10, 1, 1, 1),
        ray(12, 7, 5, -2, -1, -1),
        ray(-10, 6, 0, 1, 0, 0),
        ray(5, 5, 5, 1, 2, 3),
        ray(2, 2, 2, 0, 0, 1),
        ray(-6, 3, 2, 3, -1, 0),
    ];
    for b in boxes.iter() {
        for r in rays.iter() {
            let corners = aabb_vertices(*b);
            assert_eq!(ray_intersects_box(*r, &corners), brute_force_hit(*r, *b));
        }
    }
}

#[test]
fn hit_on_child_box_hits_parent_box() {
    // Tree-pruning correctness on nested boxes: a ray that hits an octant
    // also hits the box it was split from.
    let parents = [
        AABB::new(v(-4, -4, -4), v(4, 4, 4)),
        AABB::new(v(-4, -2, -1), v(3, 5, 7)),
    ];
    let rays = [
        ray(-10, 0, 0, 1, 0, 0),
        ray(-10, 2, 3, 1, 0, 0),
        ray(-10, -10, -10, 1, 1, 1),
        ray(12, 7, 5, -2, -1, -1),
        ray(0, -20, 1, 0, 1, 0),
        ray(2, 2, 2, 0, 0, 1),
        ray(-6, 3, 2, 3, -1, 0),
    ];
    for p in parents.iter() {
        let parent_corners = aabb_vertices(*p);
        for child in split_octants(*p).iter() {
            let child_corners = aabb_vertices(*child);
            for r in rays.iter() {
                if ray_intersects_box(*r, &child_corners) {
                    assert!(ray_intersects_box(*r, &parent_corners));
                }
            }
        }
    }
}

// A triangle in the plane x = 1 facing the x axis, plus a distant second
// triangle that gives the mesh's bounding box its volume.
fn facing_mesh() -> Vec<Triangle3d> {
    vec![
        Triangle3d::new(v(1, -1, -1), v(1, 1, -1), v(1, 0, 1)),
        Triangle3d::new(v(3, -50, -50), v(4, -50, -50), v(3, -49, -49)),
    ]
}

#[test]
fn direct_hit_reports_one_point() {
    let meshes = vec![TriangleData(facing_mesh())];
    let trees = construct_collision_trees(&meshes);
    let hits = collision(ray(-5, 0, 0, 1, 0, 0), &trees[0], &meshes[0], &Affine3::identity());
    // One exact intersection point at (1, 0, 0), with a positive parameter
    // (t = 6, as numerator 24 over denominator 4).
    assert_eq!(hits, vec![RatVec3 { x: 4, y: 0, z: 0, den: 4 }]);
}

#[test]
fn ray_in_triangle_plane_reports_nothing() {
    // The ray runs inside the plane of the first triangle: the denominator of
    // the intersection parameter vanishes, and the engine treats that as no
    // usable intersection.
    let mesh = vec![
        Triangle3d::new(v(1, -1, 0), v(1, 1, 0), v(0, 0, 0)),
        Triangle3d::new(v(-2, -50, -50), v(-1, -50, -50), v(-2, -49, -49)),
    ];
    let meshes = vec![TriangleData(mesh)];
    let trees = construct_collision_trees(&meshes);
    let hits = collision(ray(-5, 0, 0, 1, 0, 0), &trees[0], &meshes[0], &Affine3::identity());
    assert_eq!(hits, Vec::<RatVec3>::new());
}

#[test]
fn translated_triangle_misses() {
    // The same ray against the triangle lifted to z = 10: no intersection.
    let mesh = vec![Triangle3d::new(v(1, -1, 10), v(1, 1, 10), v(0, 0, 10))];
    let meshes = vec![TriangleData(mesh)];
    let trees = construct_collision_trees(&meshes);
    let hits = collision(ray(-5, 0, 0, 1, 0, 0), &trees[0], &meshes[0], &Affine3::identity());
    assert_eq!(hits, Vec::<RatVec3>::new());
}

#[test]
fn transform_moves_mesh_into_world_space() {
    let meshes = vec![TriangleData(facing_mesh())];
    let trees = construct_collision_trees(&meshes);
    let shifted = Affine3 {
        x_row: v(1, 0, 0),
        y_row: v(0, 1, 0),
        z_row: v(0, 0, 1),
        translation: v(10, 0, 0),
    };
    let hits = collision(ray(-5, 0, 0, 1, 0, 0), &trees[0], &meshes[0], &shifted);
    // The facing triangle now sits in the plane x = 11: one hit at (11, 0, 0).
    assert_eq!(hits, vec![RatVec3 { x: 44, y: 0, z: 0, den: 4 }]);
}

#[test]
fn miss_prunes_to_no_points() {
    let meshes = vec![TriangleData(facing_mesh())];
    let trees = construct_collision_trees(&meshes);
    // A ray far off to the side misses the root box outright.
    let hits = collision(ray(-5, 100, 0, 1, 0, 0), &trees[0], &meshes[0], &Affine3::identity());
    assert_eq!(hits, Vec::<RatVec3>::new());
}
