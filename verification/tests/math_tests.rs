use octree_collision::math::{
    plane_from_points, ray_3d_from_points, ray_plane_intersect, tval_lt, tval_max, tval_min, Plane,
    RatVec3, Ray3d, Tval, Vec3i,
};

fn v(x: i64, y: i64, z: i64) -> Vec3i {
    Vec3i::new(x, y, z)
}

#[test]
fn plane_from_points_exact() {
    let p = plane_from_points(v(0, 0, 0), v(4, 0, 0), v(0, 4, 0));
    assert_eq!(p, Plane { a: 0, b: 0, c: 16, d: 0 });

    // A plane not through the origin: z = 5, scaled by the cross product.
    let p = plane_from_points(v(0, 0, 5), v(2, 0, 5), v(0, 2, 5));
    assert_eq!(p, Plane { a: 0, b: 0, c: 4, d: 20 });

    // Collinear points give the zero normal.
    let p = plane_from_points(v(0, 0, 0), v(1, 1, 1), v(2, 2, 2));
    assert_eq!(p, Plane { a: 0, b: 0, c: 0, d: 0 });
}

#[test]
fn ray_from_points_direction() {
    let r = ray_3d_from_points(v(1, 2, 3), v(4, 4, 4));
    assert_eq!(r.origin, v(1, 2, 3));
    assert_eq!(r.dir, v(3, 2, 1));
}

#[test]
fn ray_plane_intersect_finite() {
    let plane = plane_from_points(v(0, 0, 0), v(4, 0, 0), v(0, 4, 0));
    let ray = Ray3d { origin: v(0, 0, -8), dir: v(0, 0, 1) };
    // t = 8: the ray starts eight units below z = 0 and climbs one per step.
    assert_eq!(ray_plane_intersect(ray, plane), Tval::Finite { num: 128, den: 16 });
}

#[test]
fn ray_plane_intersect_negative_denominator_normalized() {
    let plane = plane_from_points(v(0, 0, 0), v(4, 0, 0), v(0, 4, 0));
    let ray = Ray3d { origin: v(0, 0, -8), dir: v(0, 0, -1) };
    // t = -8, kept with a positive denominator.
    assert_eq!(ray_plane_intersect(ray, plane), Tval::Finite { num: -128, den: 16 });
}

#[test]
fn ray_parallel_to_plane_is_not_finite() {
    let plane = plane_from_points(v(0, 0, 0), v(4, 0, 0), v(0, 4, 0));
    // Parallel, origin below the plane: the division is 128 / 0.
    let ray = Ray3d { origin: v(0, 0, -8), dir: v(1, 0, 0) };
    assert_eq!(ray_plane_intersect(ray, plane), Tval::PlusInf);
    // Parallel, origin above.
    let ray = Ray3d { origin: v(0, 0, 8), dir: v(1, 0, 0) };
    assert_eq!(ray_plane_intersect(ray, plane), Tval::MinusInf);
    // The ray lies in the plane: 0 / 0 has no value.
    let ray = Ray3d { origin: v(0, 0, 0), dir: v(1, 0, 0) };
    assert_eq!(ray_plane_intersect(ray, plane), Tval::NaN);
}

#[test]
fn ray_at_evaluates_exactly() {
    let ray = Ray3d { origin: v(1, 2, 3), dir: v(2, 0, 0) };
    // t = 1/2: the midpoint between the origin and origin + dir.
    let p = ray.at(1, 2);
    assert_eq!(p, RatVec3 { x: 4, y: 4, z: 6, den: 2 });
}

#[test]
fn tval_comparisons_follow_float_rules() {
    let one_half = Tval::Finite { num: 1, den: 2 };
    let two_quarters = Tval::Finite { num: 2, den: 4 };
    let three = Tval::Finite { num: 3, den: 1 };
    assert!(tval_lt(&one_half, &three));
    assert!(!tval_lt(&one_half, &two_quarters));
    assert!(tval_lt(&Tval::MinusInf, &one_half));
    assert!(tval_lt(&one_half, &Tval::PlusInf));
    assert!(tval_lt(&Tval::MinusInf, &Tval::PlusInf));
    assert!(!tval_lt(&Tval::PlusInf, &Tval::PlusInf));
    // No comparison against NaN holds.
    assert!(!tval_lt(&Tval::NaN, &one_half));
    assert!(!tval_lt(&one_half, &Tval::NaN));
    // min and max ignore a NaN operand, as f32::min and f32::max do.
    assert_eq!(tval_min(Tval::NaN, three), three);
    assert_eq!(tval_max(Tval::NaN, three), three);
    assert_eq!(tval_min(three, Tval::NaN), three);
    assert_eq!(tval_min(one_half, three), one_half);
    assert_eq!(tval_max(one_half, three), three);
    assert_eq!(tval_max(Tval::MinusInf, three), three);
}
