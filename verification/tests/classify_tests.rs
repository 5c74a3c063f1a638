use octree_collision::bbox::{aabb_vertices, point_in_aabb, split_octants, AABB};
use octree_collision::classify::{
    find_triangles_within_bound, line_intersects_triangle, point_in_tri, triangle_overlaps_box,
};
use octree_collision::math::{RatVec3, Triangle3d, Vec3i};

fn v(x: i64, y: i64, z: i64) -> Vec3i {
    Vec3i::new(x, y, z)
}

fn grid_point(x: i64, y: i64, z: i64) -> RatVec3 {
    RatVec3 { x: x as i128, y: y as i128, z: z as i128, den: 1 }
}

// The triangle (0,0,0), (4,0,0), (0,4,0) in the plane z = 0.
fn right_triangle() -> [Vec3i; 3] {
    [v(0, 0, 0), v(4, 0, 0), v(0, 4, 0)]
}

#[test]
fn point_strictly_inside_triangle() {
    let tri = right_triangle();
    assert!(point_in_tri(&grid_point(1, 1, 0), &tri));
    assert!(point_in_tri(&grid_point(2, 1, 0), &tri));
}

#[test]
fn point_on_edge_is_outside() {
    // The boundary convention of the angle test: a point exactly on an edge
    // ties the strict cosine comparison and is classified outside.
    let tri = right_triangle();
    // On edge a-b.
    assert!(!point_in_tri(&grid_point(2, 0, 0), &tri));
    // On edge a-b at a non-integer position (3/2, 0, 0).
    assert!(!point_in_tri(&RatVec3 { x: 3, y: 0, z: 0, den: 2 }, &tri));
    // On edge a-c.
    assert!(!point_in_tri(&grid_point(0, 2, 0), &tri));
    // On the hypotenuse b-c, at (2, 2, 0).
    assert!(!point_in_tri(&grid_point(2, 2, 0), &tri));
    // On a vertex.
    assert!(!point_in_tri(&grid_point(0, 0, 0), &tri));
    assert!(!point_in_tri(&grid_point(4, 0, 0), &tri));
}

#[test]
fn point_near_edge_neighbours() {
    let tri = right_triangle();
    // Just inside the edge a-b (one quarter of a grid unit up).
    assert!(point_in_tri(&RatVec3 { x: 8, y: 1, z: 0, den: 4 }, &tri));
    // Just outside.
    assert!(!point_in_tri(&RatVec3 { x: 8, y: -1, z: 0, den: 4 }, &tri));
}

#[test]
fn point_outside_triangle() {
    let tri = right_triangle();
    assert!(!point_in_tri(&grid_point(3, 3, 0), &tri));
    assert!(!point_in_tri(&grid_point(-1, 1, 0), &tri));
}

#[test]
fn degenerate_triangle_rejects_all() {
    // Collinear vertices: no point passes the test.
    let tri = [v(0, 0, 0), v(2, 2, 2), v(4, 4, 4)];
    assert!(!point_in_tri(&grid_point(1, 1, 1), &tri));
    assert!(!point_in_tri(&grid_point(1, 0, 0), &tri));
}

#[test]
fn segment_crosses_triangle() {
    let tri = Triangle3d::new(v(0, 0, 0), v(4, 0, 0), v(0, 4, 0));
    // A vertical segment through (1, 1) crosses the triangle's interior.
    assert!(line_intersects_triangle(v(1, 1, -2), v(1, 1, 2), &tri));
    // One that stops below the plane does not (t > 1).
    assert!(!line_intersects_triangle(v(1, 1, -4), v(1, 1, -2), &tri));
    // One parallel to the plane does not.
    assert!(!line_intersects_triangle(v(1, 1, 1), v(2, 2, 1), &tri));
    // One through a point outside the triangle does not.
    assert!(!line_intersects_triangle(v(3, 3, -2), v(3, 3, 2), &tri));
}

#[test]
fn vertex_containment_is_inclusive() {
    let b = AABB::new(v(-3, -3, -3), v(3, 3, 3));
    assert!(point_in_aabb(v(0, 0, 0), b));
    assert!(point_in_aabb(v(3, 3, 3), b));
    assert!(point_in_aabb(v(-3, 3, 0), b));
    assert!(!point_in_aabb(v(4, 0, 0), b));
    assert!(!point_in_aabb(v(0, -4, 0), b));
}

#[test]
fn aabb_vertices_winding() {
    let b = AABB::new(v(0, 0, 0), v(2, 4, 6));
    let c = aabb_vertices(b);
    assert_eq!(c[0], v(0, 0, 0));
    assert_eq!(c[1], v(0, 0, 6));
    assert_eq!(c[2], v(2, 0, 6));
    assert_eq!(c[3], v(2, 0, 0));
    assert_eq!(c[4], v(2, 4, 6));
    assert_eq!(c[5], v(2, 4, 0));
    assert_eq!(c[6], v(0, 4, 0));
    assert_eq!(c[7], v(0, 4, 6));
}

#[test]
fn octants_tile_the_box() {
    let b = AABB::new(v(0, 0, 0), v(4, 4, 4));
    let o = split_octants(b);
    assert_eq!(o[0], AABB::new(v(0, 0, 0), v(2, 2, 2)));
    assert_eq!(o[1], AABB::new(v(2, 0, 0), v(4, 2, 2)));
    assert_eq!(o[2], AABB::new(v(0, 2, 0), v(2, 4, 2)));
    assert_eq!(o[3], AABB::new(v(2, 2, 0), v(4, 4, 2)));
    assert_eq!(o[4], AABB::new(v(0, 0, 2), v(2, 2, 4)));
    assert_eq!(o[5], AABB::new(v(2, 0, 2), v(4, 2, 4)));
    assert_eq!(o[6], AABB::new(v(0, 2, 2), v(2, 4, 4)));
    assert_eq!(o[7], AABB::new(v(2, 2, 2), v(4, 4, 4)));
    // An odd extent still tiles: the two halves share the midpoint.
    let b = AABB::new(v(0, 0, 0), v(5, 5, 5));
    let o = split_octants(b);
    assert_eq!(o[0], AABB::new(v(0, 0, 0), v(2, 2, 2)));
    assert_eq!(o[7], AABB::new(v(2, 2, 2), v(5, 5, 5)));
}

#[test]
fn triangle_crossing_box_overlaps() {
    // The triangle has one vertex outside the box on each side, but its body
    // crosses the box: overlap is found by the edge phase.
    let tri = Triangle3d::new(v(4, 0, 0), v(4, 4, 0), v(0, 4, 0));
    let b = AABB::new(v(-3, -3, -3), v(3, 3, 3));
    assert!(triangle_overlaps_box(&tri, b));
    // A triangle with a vertex inside is found by the vertex phase.
    let tri = Triangle3d::new(v(0, 0, 0), v(40, 0, 0), v(0, 40, 0));
    assert!(triangle_overlaps_box(&tri, b));
    // A triangle far away does not overlap.
    let tri = Triangle3d::new(v(40, 40, 40), v(44, 40, 40), v(40, 44, 40));
    assert!(!triangle_overlaps_box(&tri, b));
}

#[test]
fn test_triangles_within_bound() {
    let triangles = vec![Triangle3d::new(v(4, 0, 0), v(4, 4, 0), v(0, 4, 0))];
    let aabb = AABB { min: v(-3, -3, -3), max: v(3, 3, 3) };
    let indices = find_triangles_within_bound(&triangles, &vec![0], aabb);
    assert_eq!(indices, vec![0]);

    let triangles = vec![Triangle3d::new(v(4, 0, 0), v(4, -4, 0), v(0, -4, 0))];
    let aabb = AABB { min: v(-3, -3, -3), max: v(3, 3, 3) };
    let indices = find_triangles_within_bound(&triangles, &vec![0], aabb);
    assert_eq!(indices, vec![0]);

    let triangles = vec![Triangle3d::new(v(0, 0, 4), v(0, 4, 4), v(0, 4, 0))];
    let aabb = AABB { min: v(-3, -3, -3), max: v(3, 3, 3) };
    let indices = find_triangles_within_bound(&triangles, &vec![0], aabb);
    assert_eq!(indices, vec![0]);

    let triangles = vec![Triangle3d::new(v(0, 0, 4), v(0, -4, 4), v(0, -4, 0))];
    let aabb = AABB { min: v(-3, -3, -3), max: v(3, 3, 3) };
    let indices = find_triangles_within_bound(&triangles, &vec![0], aabb);
    assert_eq!(indices, vec![0]);

    let triangles = vec![Triangle3d::new(v(4, 0, 0), v(4, 0, 4), v(0, 0, 4))];
    let aabb = AABB { min: v(-3, -3, -3), max: v(3, 3, 3) };
    let indices = find_triangles_within_bound(&triangles, &vec![0], aabb);
    assert_eq!(indices, vec![0]);

    let triangles = vec![Triangle3d::new(v(-4, 0, 0), v(-4, 0, 4), v(0, 0, 4))];
    let aabb = AABB { min: v(-3, -3, -3), max: v(3, 3, 3) };
    let indices = find_triangles_within_bound(&triangles, &vec![0], aabb);
    assert_eq!(indices, vec![0]);
}

#[test]
fn filter_keeps_only_overlapping() {
    let triangles = vec![
        Triangle3d::new(v(0, 0, 0), v(1, 0, 0), v(0, 1, 0)),
        Triangle3d::new(v(40, 40, 40), v(44, 40, 40), v(40, 44, 40)),
        Triangle3d::new(v(-1, -1, -1), v(1, -1, -1), v(-1, 1, 1)),
    ];
    let aabb = AABB { min: v(-3, -3, -3), max: v(3, 3, 3) };
    let indices = find_triangles_within_bound(&triangles, &vec![0, 1, 2], aabb);
    assert_eq!(indices, vec![0, 2]);
}
