use octree_collision::bbox::{find_aabb, AABB};
use octree_collision::math::{Triangle3d, Vec3i};
use octree_collision::tree::{
    add_collider_wireframes, construct_collision_trees, divide_aabb, RecursiveAABB,
    ShouldRenderCollider, TriangleData, TRIANGLE_LIMIT,
};

fn v(x: i64, y: i64, z: i64) -> Vec3i {
    Vec3i::new(x, y, z)
}

// A small triangle near the all-negative corner, displaced by `i` along x.
fn low_triangle(i: i64) -> Triangle3d {
    Triangle3d::new(v(-100 + i, -100, -100), v(-99 + i, -100, -100), v(-100 + i, -99, -99))
}

// Its mirror image near the all-positive corner.
fn high_triangle(i: i64) -> Triangle3d {
    Triangle3d::new(v(99 - i, 99, 99), v(100 - i, 99, 99), v(99 - i, 100, 100))
}

// `n` triangles split between the two opposite corners of the mesh.
fn clustered_mesh(n: usize) -> Vec<Triangle3d> {
    let mut tris = Vec::new();
    for i in 0..n {
        if i % 2 == 0 {
            tris.push(low_triangle((i / 2) as i64));
        } else {
            tris.push(high_triangle((i / 2) as i64));
        }
    }
    tris
}

fn count_leaf_indices(node: &RecursiveAABB, seen: &mut Vec<bool>) {
    match &node.next {
        None => {
            for &i in &node.enclosed {
                seen[i] = true;
            }
        },
        Some(children) => {
            for c in children {
                count_leaf_indices(c, seen);
            }
        },
    }
}

#[test]
fn find_aabb_exact_extremes() {
    let tris = vec![
        Triangle3d::new(v(1, 2, 3), v(-4, 5, 6), v(7, -8, 9)),
        Triangle3d::new(v(0, 0, 4), v(2, 2, 5), v(1, 1, 6)),
    ];
    let b = find_aabb(&tris);
    assert_eq!(b, AABB { min: v(-4, -8, 3), max: v(7, 5, 9) });
}

#[test]
fn find_aabb_empty_is_degenerate() {
    let b = find_aabb(&Vec::new());
    assert_eq!(b, AABB { min: v(0, 0, 0), max: v(0, 0, 0) });
}

#[test]
fn leaf_threshold_exact() {
    // Exactly TRIANGLE_LIMIT triangles: the root is immediately a leaf.
    let meshes = vec![TriangleData(clustered_mesh(TRIANGLE_LIMIT))];
    let trees = construct_collision_trees(&meshes);
    assert_eq!(trees.len(), 1);
    assert!(trees[0].next.is_none());
    assert_eq!(trees[0].enclosed.len(), TRIANGLE_LIMIT);
}

#[test]
fn one_more_triangle_forces_one_subdivision() {
    // One more triangle forces exactly one level of 8-way subdivision: each
    // octant holds one corner cluster (at most 13 triangles), so every child
    // is a leaf.
    let meshes = vec![TriangleData(clustered_mesh(TRIANGLE_LIMIT + 1))];
    let trees = construct_collision_trees(&meshes);
    let root = &trees[0];
    let children = root.next.as_ref().expect("the root must have split");
    assert_eq!(children.len(), 8);
    for c in children.iter() {
        assert!(c.next.is_none());
    }
    // The two corner clusters sit in the first and last octant.
    assert_eq!(children[0].enclosed.len(), 13);
    assert_eq!(children[7].enclosed.len(), 13);
    let named: usize = children.iter().map(|c| c.enclosed.len()).sum();
    assert_eq!(named, TRIANGLE_LIMIT + 1);
}

#[test]
fn every_triangle_reaches_a_leaf() {
    let n: usize = 60;
    let meshes = vec![TriangleData(clustered_mesh(n))];
    let trees = construct_collision_trees(&meshes);
    let mut seen = vec![false; n];
    count_leaf_indices(&trees[0], &mut seen);
    assert!(seen.iter().all(|&s| s));
}

#[test]
fn building_twice_gives_identical_trees() {
    let meshes = vec![TriangleData(clustered_mesh(40))];
    let t1 = construct_collision_trees(&meshes);
    let t2 = construct_collision_trees(&meshes);
    assert_eq!(t1, t2);
}

#[test]
fn empty_mesh_builds_degenerate_leaf() {
    let meshes = vec![TriangleData(Vec::new())];
    let trees = construct_collision_trees(&meshes);
    assert_eq!(trees.len(), 1);
    assert!(trees[0].next.is_none());
    assert!(trees[0].enclosed.is_empty());
    assert_eq!(trees[0].aabb, AABB { min: v(0, 0, 0), max: v(0, 0, 0) });
}

#[test]
fn divide_aabb_splits_in_place() {
    let tris = clustered_mesh(30);
    let bounds = find_aabb(&tris);
    let mut node = RecursiveAABB {
        aabb: bounds,
        next: None,
        enclosed: (0..tris.len()).collect(),
    };
    divide_aabb(&mut node, 25, &tris);
    assert_eq!(node.aabb, bounds);
    assert_eq!(node.enclosed.len(), 30);
    assert!(node.next.is_some());
}

#[test]
fn wireframe_hints_flag_nonempty_leaves() {
    let meshes = vec![TriangleData(clustered_mesh(TRIANGLE_LIMIT + 1))];
    let trees = construct_collision_trees(&meshes);
    let hints = add_collider_wireframes(&trees[0]);
    // The root plus its eight children, in construction order.
    assert_eq!(hints.len(), 9);
    assert_eq!(hints[0].0, trees[0].aabb);
    // The root is internal: not flagged.
    assert_eq!(hints[0].1, ShouldRenderCollider(false));
    // The two corner octants hold triangles and are flagged; the rest are
    // empty leaves.
    assert_eq!(hints[1].1, ShouldRenderCollider(true));
    assert_eq!(hints[8].1, ShouldRenderCollider(true));
    for k in 2..8 {
        assert_eq!(hints[k].1, ShouldRenderCollider(false));
    }
}
