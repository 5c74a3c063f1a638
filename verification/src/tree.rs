//! The recursive bounding-volume tree: an 8-ary tree of axis-aligned boxes
//! over a triangle buffer. A node holds its box, the indices of the triangles
//! assigned to its cell, and either nothing (a leaf) or exactly eight
//! children, one per octant of its box. A triangle that straddles an octant
//! boundary is deliberately assigned to every octant it overlaps, so a query
//! never misses it at the cost of some duplicate leaf entries.

use vstd::prelude::*;

use crate::bbox::{
    aabb_in_range, aabb_wf, find_aabb, lemma_find_aabb_in_range, lemma_octant_wf,
    lemma_octants_tile, spec_octant, spec_point_in_aabb, split_octants, AABB,
};
use crate::classify::{
    find_triangles_within_bound, lemma_filter_overlapping_keeps, lemma_filter_overlapping_subset,
    spec_filter_overlapping, spec_tri_overlaps_aabb,
};
use crate::math::{tri_in_range, Triangle3d, Vec3i};

verus! {

/// A node is made a leaf when its cell holds at most this many triangles.
pub const TRIANGLE_LIMIT: usize = 25;

/// Hard bound on subdivision depth: a cell at this depth is made a leaf even
/// when it is still over the triangle limit, so that a cluster of triangles
/// falling into the same octant on every split cannot recurse forever.
pub const MAX_TREE_DEPTH: usize = 32;

/// Names of the sub-meshes of a scene that the host designates as collidable.
pub struct Collidable(pub Vec<String>);

/// The triangle buffer of one mesh, in mesh-local space.
pub struct TriangleData(pub Vec<Triangle3d>);

/// Drawable hint for one tree node: a leaf with at least one enclosed
/// triangle is worth rendering as a debug wireframe.
#[derive(Clone, Copy, Debug, PartialEq, Eq, Structural)]
pub struct ShouldRenderCollider(pub bool);

/// A node of the bounding-volume tree. `next` is `None` exactly at leaves;
/// an internal node keeps the (transient) index list it was split from, but
/// queries only read the lists at leaves.
#[derive(Debug, PartialEq)]
pub struct RecursiveAABB {
    pub aabb: AABB,
    pub next: Option<Vec<RecursiveAABB>>,
    pub enclosed: Vec<usize>,
}

/// The defining relation of the tree builder: `node` is exactly the tree
/// built over box `bounds` for the index list `enclosed`, splitting any cell
/// over `limit` indices into its eight octants (each octant keeping the
/// indices of the triangles that overlap it), until `fuel` runs out.
pub open spec fn is_tree_for(
    node: RecursiveAABB,
    bounds: AABB,
    enclosed: Seq<usize>,
    tris: Seq<Triangle3d>,
    limit: int,
    fuel: nat,
) -> bool
    decreases fuel,
{
    &&& node.aabb == bounds
    &&& node.enclosed@ == enclosed
    &&& if enclosed.len() <= limit || fuel == 0 {
        node.next is None
    } else {
        &&& node.next is Some
        &&& node.next->0@.len() == 8
        &&& forall|k: int|
            0 <= k < 8 ==> is_tree_for(
                #[trigger] node.next->0@[k],
                spec_octant(bounds, k),
                spec_filter_overlapping(enclosed, tris, spec_octant(bounds, k)),
                tris,
                limit,
                (fuel - 1) as nat,
            )
    }
}

/// Structural well-formedness a query needs: boxes on the grid, triangle
/// indices in range, and eight children per internal node.
pub open spec fn tree_wf(node: RecursiveAABB, tris: Seq<Triangle3d>) -> bool
    decreases node,
{
    &&& aabb_wf(node.aabb)
    &&& aabb_in_range(node.aabb)
    &&& forall|j: int| 0 <= j < node.enclosed@.len() ==> (#[trigger] node.enclosed@[j]) < tris.len()
    &&& match node.next {
        None => true,
        Some(children) => {
            &&& children@.len() == 8
            &&& forall|k: int|
                0 <= k < 8 ==> tree_wf(#[trigger] children@[k], tris) && crate::bbox::aabb_contained_in(
                    children@[k].aabb,
                    node.aabb,
                )
        },
    }
}

/// Triangle index `i` is recorded in some leaf below `node`.
pub open spec fn leaf_contains(node: RecursiveAABB, i: usize) -> bool
    decreases node,
{
    match node.next {
        None => node.enclosed@.contains(i),
        Some(children) => exists|k: int|
            0 <= k < children@.len() && leaf_contains(#[trigger] children@[k], i),
    }
}

/// Build the subtree over `bounds` for the index list `enclosed`: a leaf when
/// the list is within `triangle_limit` (or the depth budget `fuel` is spent),
/// otherwise one child per octant, each over the indices of the triangles
/// overlapping that octant.
fn build_node(
    bounds: AABB,
    enclosed: Vec<usize>,
    triangles: &Vec<Triangle3d>,
    triangle_limit: usize,
    fuel: usize,
) -> (r: RecursiveAABB)
    requires
        aabb_wf(bounds),
        aabb_in_range(bounds),
        forall|i: int| 0 <= i < triangles@.len() ==> tri_in_range(#[trigger] triangles@[i]),
        forall|j: int| 0 <= j < enclosed@.len() ==> (#[trigger] enclosed@[j]) < triangles@.len(),
    ensures
        is_tree_for(r, bounds, enclosed@, triangles@, triangle_limit as int, fuel as nat),
        tree_wf(r, triangles@),
    decreases fuel,
{
    if enclosed.len() <= triangle_limit || fuel == 0 {
        return RecursiveAABB { aabb: bounds, next: None, enclosed };
    }
    let octs = split_octants(bounds);
    let mut children: Vec<RecursiveAABB> = Vec::new();
    let mut k: usize = 0;
    while k < 8
        invariant
            aabb_wf(bounds),
            aabb_in_range(bounds),
            forall|i: int| 0 <= i < triangles@.len() ==> tri_in_range(#[trigger] triangles@[i]),
            forall|j: int| 0 <= j < enclosed@.len() ==> (#[trigger] enclosed@[j]) < triangles@.len(),
            enclosed@.len() > triangle_limit,
            fuel >= 1,
            forall|k2: int| 0 <= k2 < 8 ==> octs[k2] == spec_octant(bounds, k2),
            0 <= k <= 8,
            children@.len() == k,
            forall|k2: int|
                0 <= k2 < k ==> is_tree_for(
                    #[trigger] children@[k2],
                    spec_octant(bounds, k2),
                    spec_filter_overlapping(enclosed@, triangles@, spec_octant(bounds, k2)),
                    triangles@,
                    triangle_limit as int,
                    (fuel - 1) as nat,
                ),
            forall|k2: int| 0 <= k2 < k ==> tree_wf(#[trigger] children@[k2], triangles@),
        decreases 8 - k,
    {
        let oct = octs[k];
        proof {
            lemma_octant_wf(bounds, k as int);
        }
        let next_enclosed = find_triangles_within_bound(triangles, &enclosed, oct);
        proof {
            lemma_filter_overlapping_subset(enclosed@, triangles@, oct);
            assert forall|j: int| 0 <= j < next_enclosed@.len() implies (#[trigger] next_enclosed@[j])
                < triangles@.len() by {
                assert(enclosed@.contains(next_enclosed@[j]));
                let w = choose|w: int| 0 <= w < enclosed@.len() && enclosed@[w] == next_enclosed@[j];
                assert(enclosed@[w] < triangles@.len());
            }
        }
        let child = build_node(oct, next_enclosed, triangles, triangle_limit, fuel - 1);
        children.push(child);
        k = k + 1;
    }
    RecursiveAABB { aabb: bounds, next: Some(children), enclosed }
}

/// Subdivide a freshly made root node in place: replace it by the tree built
/// over its box for its index list, with the depth budget [`MAX_TREE_DEPTH`].
pub fn divide_aabb(aabb: &mut RecursiveAABB, triangle_limit: usize, triangles: &Vec<Triangle3d>)
    requires
        old(aabb).next is None,
        aabb_wf(old(aabb).aabb),
        aabb_in_range(old(aabb).aabb),
        forall|i: int| 0 <= i < triangles@.len() ==> tri_in_range(#[trigger] triangles@[i]),
        forall|j: int|
            0 <= j < old(aabb).enclosed@.len() ==> (#[trigger] old(aabb).enclosed@[j])
                < triangles@.len(),
    ensures
        is_tree_for(
            *final(aabb),
            old(aabb).aabb,
            old(aabb).enclosed@,
            triangles@,
            triangle_limit as int,
            MAX_TREE_DEPTH as nat,
        ),
        tree_wf(*final(aabb), triangles@),
{
    let bounds = aabb.aabb;
    let mut enclosed: Vec<usize> = Vec::new();
    core::mem::swap(&mut enclosed, &mut aabb.enclosed);
    let node = build_node(bounds, enclosed, triangles, triangle_limit, MAX_TREE_DEPTH);
    *aabb = node;
}

/// The index list `0, 1, .., n-1` naming every triangle of a buffer.
pub open spec fn spec_all_indices(n: nat) -> Seq<usize> {
    Seq::new(n, |i: int| i as usize)
}

fn all_indices(n: usize) -> (r: Vec<usize>)
    ensures
        r@ == spec_all_indices(n as nat),
{
    let mut r: Vec<usize> = Vec::new();
    let mut i: usize = 0;
    while i < n
        invariant
            0 <= i <= n,
            r@ == spec_all_indices(i as nat),
        decreases n - i,
    {
        r.push(i);
        proof {
            assert(r@ =~= spec_all_indices((i + 1) as nat));
        }
        i = i + 1;
    }
    r
}

/// What a built root node promises: it is the exact tree over its own box for
/// the full index list of the buffer; its box bounds every vertex and is
/// tight (each face touches some vertex); an empty buffer yields the
/// degenerate box at the origin.
pub open spec fn is_collision_tree(root: RecursiveAABB, tris: Seq<Triangle3d>) -> bool {
    &&& is_tree_for(
        root,
        root.aabb,
        spec_all_indices(tris.len()),
        tris,
        TRIANGLE_LIMIT as int,
        MAX_TREE_DEPTH as nat,
    )
    &&& tree_wf(root, tris)
    &&& aabb_wf(root.aabb)
    &&& forall|i: int, k: int|
        0 <= i < tris.len() && 0 <= k < 3 ==> spec_point_in_aabb(
            (#[trigger] tris[i].vertices[k]).m(),
            root.aabb,
        )
    &&& tris.len() == 0 ==> root.aabb == (AABB {
        min: Vec3i { x: 0, y: 0, z: 0 },
        max: Vec3i { x: 0, y: 0, z: 0 },
    })
    &&& tris.len() > 0 ==> {
        &&& (exists|i: int, k: int|
            0 <= i < tris.len() && 0 <= k < 3 && (#[trigger] tris[i].vertices[k]).x
                == root.aabb.min.x)
        &&& (exists|i: int, k: int|
            0 <= i < tris.len() && 0 <= k < 3 && (#[trigger] tris[i].vertices[k]).y
                == root.aabb.min.y)
        &&& (exists|i: int, k: int|
            0 <= i < tris.len() && 0 <= k < 3 && (#[trigger] tris[i].vertices[k]).z
                == root.aabb.min.z)
        &&& (exists|i: int, k: int|
            0 <= i < tris.len() && 0 <= k < 3 && (#[trigger] tris[i].vertices[k]).x
                == root.aabb.max.x)
        &&& (exists|i: int, k: int|
            0 <= i < tris.len() && 0 <= k < 3 && (#[trigger] tris[i].vertices[k]).y
                == root.aabb.max.y)
        &&& (exists|i: int, k: int|
            0 <= i < tris.len() && 0 <= k < 3 && (#[trigger] tris[i].vertices[k]).z
                == root.aabb.max.z)
    }
}

/// Build one collision tree per registered mesh: for each buffer, bound all
/// its vertices by a root box and subdivide down to the triangle limit.
pub fn construct_collision_trees(meshes: &Vec<TriangleData>) -> (r: Vec<RecursiveAABB>)
    requires
        forall|mi: int, i: int|
            0 <= mi < meshes@.len() && 0 <= i < meshes@[mi].0@.len() ==> tri_in_range(
                #[trigger] meshes@[mi].0@[i],
            ),
    ensures
        r@.len() == meshes@.len(),
        forall|mi: int|
            0 <= mi < meshes@.len() ==> is_collision_tree(#[trigger] r@[mi], meshes@[mi].0@),
{
    let mut r: Vec<RecursiveAABB> = Vec::new();
    let mut mi: usize = 0;
    while mi < meshes.len()
        invariant
            forall|mj: int, i: int|
                0 <= mj < meshes@.len() && 0 <= i < meshes@[mj].0@.len() ==> tri_in_range(
                    #[trigger] meshes@[mj].0@[i],
                ),
            0 <= mi <= meshes@.len(),
            r@.len() == mi,
            forall|mj: int|
                0 <= mj < mi ==> is_collision_tree(#[trigger] r@[mj], meshes@[mj].0@),
        decreases meshes@.len() - mi,
    {
        let triangles = &meshes[mi].0;
        let root_box = find_aabb(triangles);
        proof {
            if triangles@.len() > 0 {
                lemma_find_aabb_in_range(triangles@, root_box);
            }
        }
        let indices = all_indices(triangles.len());
        let root = build_node(root_box, indices, triangles, TRIANGLE_LIMIT, MAX_TREE_DEPTH);
        r.push(root);
        mi = mi + 1;
    }
    r
}

/// Coverage: an index on a node's list whose triangle has a vertex inside the
/// node's box is recorded in some leaf below that node. Subdivision never
/// silently drops such a triangle: the octant holding that vertex keeps it.
pub proof fn lemma_tree_coverage(
    node: RecursiveAABB,
    bounds: AABB,
    enclosed: Seq<usize>,
    tris: Seq<Triangle3d>,
    limit: int,
    fuel: nat,
    i: usize,
)
    requires
        is_tree_for(node, bounds, enclosed, tris, limit, fuel),
        aabb_wf(bounds),
        aabb_in_range(bounds),
        enclosed.contains(i),
        i < tris.len(),
        exists|k: int|
            0 <= k < 3 && spec_point_in_aabb((#[trigger] tris[i as int].vertices[k]).m(), bounds),
    ensures
        leaf_contains(node, i),
    decreases fuel,
{
    if enclosed.len() <= limit || fuel == 0 {
        assert(node.enclosed@.contains(i));
    } else {
        let vk = choose|k: int|
            0 <= k < 3 && spec_point_in_aabb((#[trigger] tris[i as int].vertices[k]).m(), bounds);
        let v = tris[i as int].vertices[vk].m();
        lemma_octants_tile(bounds);
        assert(spec_point_in_aabb(v, bounds));
        let ko = choose|ko: int| 0 <= ko < 8 && spec_point_in_aabb(v, #[trigger] spec_octant(bounds, ko));
        lemma_octant_wf(bounds, ko);
        let oct = spec_octant(bounds, ko);
        assert(spec_tri_overlaps_aabb(tris[i as int], oct)) by {
            if vk == 0 {
                assert(spec_point_in_aabb(tris[i as int].vertices[0].m(), oct));
            } else if vk == 1 {
                assert(spec_point_in_aabb(tris[i as int].vertices[1].m(), oct));
            } else {
                assert(spec_point_in_aabb(tris[i as int].vertices[2].m(), oct));
            }
        }
        lemma_filter_overlapping_keeps(enclosed, tris, oct, i);
        let child = node.next->0@[ko];
        assert(is_tree_for(
            child,
            oct,
            spec_filter_overlapping(enclosed, tris, oct),
            tris,
            limit,
            (fuel - 1) as nat,
        ));
        lemma_tree_coverage(
            child,
            oct,
            spec_filter_overlapping(enclosed, tris, oct),
            tris,
            limit,
            (fuel - 1) as nat,
            i,
        );
        assert(leaf_contains(node.next->0@[ko], i));
    }
}

/// Coverage at the root: every triangle of the buffer is reachable from at
/// least one leaf of its collision tree.
pub proof fn lemma_collision_tree_coverage(root: RecursiveAABB, tris: Seq<Triangle3d>, i: usize)
    requires
        is_collision_tree(root, tris),
        i < tris.len(),
    ensures
        leaf_contains(root, i),
{
    assert(spec_all_indices(tris.len())[i as int] == i);
    assert(spec_all_indices(tris.len()).contains(i));
    assert(spec_point_in_aabb(tris[i as int].vertices[0].m(), root.aabb));
    lemma_tree_coverage(
        root,
        root.aabb,
        spec_all_indices(tris.len()),
        tris,
        TRIANGLE_LIMIT as int,
        MAX_TREE_DEPTH as nat,
        i,
    );
}

/// Two trees have the same boxes, the same index lists, and the same shape.
pub open spec fn trees_match(n1: RecursiveAABB, n2: RecursiveAABB) -> bool
    decreases n1,
{
    &&& n1.aabb == n2.aabb
    &&& n1.enclosed@ == n2.enclosed@
    &&& match (n1.next, n2.next) {
        (Option::None, Option::None) => true,
        (Option::Some(c1), Option::Some(c2)) => {
            &&& c1@.len() == c2@.len()
            &&& forall|k: int|
                0 <= k < c1@.len() ==> trees_match(#[trigger] c1@[k], c2@[k])
        },
        _ => false,
    }
}

/// Idempotence of the builder: any two trees built over the same box for the
/// same index list and buffer are structurally identical.
pub proof fn lemma_build_deterministic(
    n1: RecursiveAABB,
    n2: RecursiveAABB,
    bounds: AABB,
    enclosed: Seq<usize>,
    tris: Seq<Triangle3d>,
    limit: int,
    fuel: nat,
)
    requires
        is_tree_for(n1, bounds, enclosed, tris, limit, fuel),
        is_tree_for(n2, bounds, enclosed, tris, limit, fuel),
    ensures
        trees_match(n1, n2),
    decreases fuel,
{
    if !(enclosed.len() <= limit || fuel == 0) {
        assert forall|k: int| 0 <= k < 8 implies trees_match(
            #[trigger] n1.next->0@[k],
            n2.next->0@[k],
        ) by {
            lemma_build_deterministic(
                n1.next->0@[k],
                n2.next->0@[k],
                spec_octant(bounds, k),
                spec_filter_overlapping(enclosed, tris, spec_octant(bounds, k)),
                tris,
                limit,
                (fuel - 1) as nat,
            );
        }
    }
}

/// Idempotence at the root: two collision trees built from the same triangle
/// buffer are structurally identical, starting with their root boxes.
pub proof fn lemma_construct_deterministic(
    r1: RecursiveAABB,
    r2: RecursiveAABB,
    tris: Seq<Triangle3d>,
)
    requires
        is_collision_tree(r1, tris),
        is_collision_tree(r2, tris),
    ensures
        trees_match(r1, r2),
{
    if tris.len() > 0 {
        assert(r1.aabb.min.x == r2.aabb.min.x) by {
            let (i1, k1) = choose|i: int, k: int|
                0 <= i < tris.len() && 0 <= k < 3 && (#[trigger] tris[i].vertices[k]).x
                    == r1.aabb.min.x;
            let (i2, k2) = choose|i: int, k: int|
                0 <= i < tris.len() && 0 <= k < 3 && (#[trigger] tris[i].vertices[k]).x
                    == r2.aabb.min.x;
            assert(spec_point_in_aabb(tris[i1].vertices[k1].m(), r2.aabb));
            assert(spec_point_in_aabb(tris[i2].vertices[k2].m(), r1.aabb));
        }
        assert(r1.aabb.min.y == r2.aabb.min.y) by {
            let (i1, k1) = choose|i: int, k: int|
                0 <= i < tris.len() && 0 <= k < 3 && (#[trigger] tris[i].vertices[k]).y
                    == r1.aabb.min.y;
            let (i2, k2) = choose|i: int, k: int|
                0 <= i < tris.len() && 0 <= k < 3 && (#[trigger] tris[i].vertices[k]).y
                    == r2.aabb.min.y;
            assert(spec_point_in_aabb(tris[i1].vertices[k1].m(), r2.aabb));
            assert(spec_point_in_aabb(tris[i2].vertices[k2].m(), r1.aabb));
        }
        assert(r1.aabb.min.z == r2.aabb.min.z) by {
            let (i1, k1) = choose|i: int, k: int|
                0 <= i < tris.len() && 0 <= k < 3 && (#[trigger] tris[i].vertices[k]).z
                    == r1.aabb.min.z;
            let (i2, k2) = choose|i: int, k: int|
                0 <= i < tris.len() && 0 <= k < 3 && (#[trigger] tris[i].vertices[k]).z
                    == r2.aabb.min.z;
            assert(spec_point_in_aabb(tris[i1].vertices[k1].m(), r2.aabb));
            assert(spec_point_in_aabb(tris[i2].vertices[k2].m(), r1.aabb));
        }
        assert(r1.aabb.max.x == r2.aabb.max.x) by {
            let (i1, k1) = choose|i: int, k: int|
                0 <= i < tris.len() && 0 <= k < 3 && (#[trigger] tris[i].vertices[k]).x
                    == r1.aabb.max.x;
            let (i2, k2) = choose|i: int, k: int|
                0 <= i < tris.len() && 0 <= k < 3 && (#[trigger] tris[i].vertices[k]).x
                    == r2.aabb.max.x;
            assert(spec_point_in_aabb(tris[i1].vertices[k1].m(), r2.aabb));
            assert(spec_point_in_aabb(tris[i2].vertices[k2].m(), r1.aabb));
        }
        assert(r1.aabb.max.y == r2.aabb.max.y) by {
            let (i1, k1) = choose|i: int, k: int|
                0 <= i < tris.len() && 0 <= k < 3 && (#[trigger] tris[i].vertices[k]).y
                    == r1.aabb.max.y;
            let (i2, k2) = choose|i: int, k: int|
                0 <= i < tris.len() && 0 <= k < 3 && (#[trigger] tris[i].vertices[k]).y
                    == r2.aabb.max.y;
            assert(spec_point_in_aabb(tris[i1].vertices[k1].m(), r2.aabb));
            assert(spec_point_in_aabb(tris[i2].vertices[k2].m(), r1.aabb));
        }
        assert(r1.aabb.max.z == r2.aabb.max.z) by {
            let (i1, k1) = choose|i: int, k: int|
                0 <= i < tris.len() && 0 <= k < 3 && (#[trigger] tris[i].vertices[k]).z
                    == r1.aabb.max.z;
            let (i2, k2) = choose|i: int, k: int|
                0 <= i < tris.len() && 0 <= k < 3 && (#[trigger] tris[i].vertices[k]).z
                    == r2.aabb.max.z;
            assert(spec_point_in_aabb(tris[i1].vertices[k1].m(), r2.aabb));
            assert(spec_point_in_aabb(tris[i2].vertices[k2].m(), r1.aabb));
        }
    }
    assert(r1.aabb == r2.aabb);
    lemma_build_deterministic(
        r1,
        r2,
        r1.aabb,
        spec_all_indices(tris.len()),
        tris,
        TRIANGLE_LIMIT as int,
        MAX_TREE_DEPTH as nat,
    );
}

/// The drawable hints of a subtree, depth first: each node's box, flagged
/// worth rendering when it is a leaf with at least one enclosed triangle.
pub open spec fn spec_wireframes(node: RecursiveAABB) -> Seq<(AABB, ShouldRenderCollider)>
    decreases node, 1int,
{
    let own = seq![
        (node.aabb, ShouldRenderCollider(node.next is None && node.enclosed@.len() > 0)),
    ];
    match node.next {
        Option::None => own,
        Option::Some(children) => own + spec_wireframes_list(children@),
    }
}

pub open spec fn spec_wireframes_list(children: Seq<RecursiveAABB>) -> Seq<
    (AABB, ShouldRenderCollider),
>
    decreases children, 0int,
{
    if children.len() == 0 {
        Seq::empty()
    } else {
        spec_wireframes(children[0]) + spec_wireframes_list(children.drop_first())
    }
}

/// Collect the drawable wireframe hints of a tree, depth first: one box per
/// node, flagged to render exactly at non-empty leaves.
pub fn add_collider_wireframes(tree: &RecursiveAABB) -> (r: Vec<(AABB, ShouldRenderCollider)>)
    ensures
        r@ == spec_wireframes(*tree),
    decreases *tree,
{
    let mut out: Vec<(AABB, ShouldRenderCollider)> = Vec::new();
    let is_leaf = tree.next.is_none();
    out.push((tree.aabb, ShouldRenderCollider(is_leaf && tree.enclosed.len() > 0)));
    proof {
        assert(out@ =~= seq![
            (tree.aabb, ShouldRenderCollider(tree.next is None && tree.enclosed@.len() > 0)),
        ]);
    }
    if let Some(children) = &tree.next {
        let mut k: usize = 0;
        proof {
            assert(children@.skip(0) =~= children@);
        }
        while k < children.len()
            invariant
                tree.next == Some(*children),
                0 <= k <= children@.len(),
                spec_wireframes(*tree) == out@ + spec_wireframes_list(
                    children@.skip(k as int),
                ),
            decreases children@.len() - k,
        {
            proof {
                assert(children@ == tree.next->0@);
                assert(0 <= k < tree.next->0@.len());
                assert(decreases_to!(*tree => tree.next));
                assert(decreases_to!(tree.next => tree.next->0));
                assert(decreases_to!(tree.next->0 => tree.next->0@));
                assert(decreases_to!(tree.next->0@ => tree.next->0@[k as int]));
            }
            let mut sub = add_collider_wireframes(&children[k]);
            proof {
                assert(children@.skip(k as int)[0] == children@[k as int]);
                assert(children@.skip(k as int).drop_first() =~= children@.skip(k as int + 1));
                assert(spec_wireframes_list(children@.skip(k as int)) == spec_wireframes(
                    children@[k as int],
                ) + spec_wireframes_list(children@.skip(k as int + 1)));
                assert((out@ + sub@) + spec_wireframes_list(children@.skip(k as int + 1)) =~= out@
                    + (sub@ + spec_wireframes_list(children@.skip(k as int + 1))));
            }
            out.append(&mut sub);
            k = k + 1;
        }
        proof {
            assert(children@.skip(children@.len() as int) =~= Seq::<RecursiveAABB>::empty());
            assert(out@ + Seq::<(AABB, ShouldRenderCollider)>::empty() =~= out@);
        }
    }
    out
}

} // verus!
