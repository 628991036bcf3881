use raytracer::auxiliar::{bigger_of_three, smaller_of_three};
use raytracer::geometry::{Point, Scalar, AABB};

/// The rank of a double: its bit pattern read as sign and magnitude.
fn rank(x: f64) -> Scalar {
    let bits = x.to_bits();
    let magnitude = (bits & 0x7fff_ffff_ffff_ffff) as i64;
    if bits >> 63 == 0 {
        magnitude
    } else {
        -magnitude
    }
}

/// The double that has the given rank.
fn value(rank: Scalar) -> f64 {
    if rank >= 0 {
        f64::from_bits(rank as u64)
    } else {
        -f64::from_bits((-rank) as u64)
    }
}

fn point(x: f64, y: f64, z: f64) -> Point {
    Point::new(rank(x), rank(y), rank(z))
}

fn close(p: Point, x: f64, y: f64, z: f64) -> bool {
    (value(p.x) - x).abs() < 1e-10 && (value(p.y) - y).abs() < 1e-10 && (value(p.z) - z).abs() < 1e-10
}

#[test]
fn rank_keeps_the_order_of_doubles() {
    let xs = [f64::NEG_INFINITY, -3.5, -1.0, -1e-300, 0.0, 1e-300, 0.5, 1.0, 2.0, 1e300, f64::INFINITY];
    for i in 0..xs.len() {
        assert_eq!(value(rank(xs[i])), xs[i]);
        for j in 0..xs.len() {
            assert_eq!(xs[i] < xs[j], rank(xs[i]) < rank(xs[j]));
        }
    }
    assert_eq!(rank(0.0), 0);
    assert_eq!(rank(-0.0), 0);
}

#[test]
fn test_smaller_of_three() {
    let (a, b, c) = (1.0, 2.0, 3.0);

    assert!((value(smaller_of_three(rank(a), rank(b), rank(c))) - a).abs() < 1e-10);
    assert!((value(smaller_of_three(rank(c), rank(b), rank(a))) - a).abs() < 1e-10);
    assert!((value(smaller_of_three(rank(b), rank(a), rank(c))) - a).abs() < 1e-10);
}

#[test]
fn test_bigger_of_three() {
    let (a, b, c) = (1.0, 2.0, 3.0);

    assert!((value(bigger_of_three(rank(a), rank(b), rank(c))) - c).abs() < 1e-10);
    assert!((value(bigger_of_three(rank(c), rank(b), rank(a))) - c).abs() < 1e-10);
    assert!((value(bigger_of_three(rank(b), rank(c), rank(a))) - c).abs() < 1e-10);
}

#[test]
fn test_menor_de_tres() {
    let (a, b, c) = (1.0, 2.0, 3.0);

    assert!(value(smaller_of_three(rank(a), rank(b), rank(c))) - a < 1e-10);
    assert!(value(smaller_of_three(rank(c), rank(b), rank(a))) - a < 1e-10);
    assert!(value(smaller_of_three(rank(b), rank(a), rank(c))) - a < 1e-10);
}

#[test]
fn test_mayor_de_tres() {
    let (a, b, c) = (1.0, 2.0, 3.0);

    assert!(value(bigger_of_three(rank(a), rank(b), rank(c))) - c < 1e-10);
    assert!(value(bigger_of_three(rank(c), rank(b), rank(a))) - c < 1e-10);
    assert!(value(bigger_of_three(rank(b), rank(c), rank(a))) - c < 1e-10);
}

#[test]
fn smaller_and_bigger_of_three_with_ties_and_negatives() {
    assert_eq!(smaller_of_three(5, 5, 7), 5);
    assert_eq!(smaller_of_three(7, 5, 5), 5);
    assert_eq!(smaller_of_three(-1, -9, 4), -9);
    assert_eq!(smaller_of_three(i64::MAX, i64::MIN, 0), i64::MIN);
    assert_eq!(bigger_of_three(5, 7, 7), 7);
    assert_eq!(bigger_of_three(-1, -9, -4), -1);
    assert_eq!(bigger_of_three(i64::MAX, i64::MIN, 0), i64::MAX);
}

#[test]
fn aabb_unir_cajas() {
    let c_1 = AABB::new(&point(1.0, 1.0, 1.0), &point(2.0, 2.0, 2.0));
    let c_2 = AABB::new(&point(0.0, 0.0, 0.0), &point(1.0, 1.0, 1.0));

    let caja = c_1.union(&c_2);

    assert!(close(caja.min, 0.0, 0.0, 0.0));
    assert!(close(caja.max, 2.0, 2.0, 2.0));
}

#[test]
fn aabb_ampliar_caja() {
    let mut caja = AABB::new(&point(1.0, 1.0, 1.0), &point(2.0, 2.0, 2.0));
    let c_2 = AABB::new(&point(0.0, 0.0, 0.0), &point(1.0, 1.0, 1.0));

    caja.resize_box(&c_2);

    assert!(close(caja.min, 0.0, 0.0, 0.0));
    assert!(close(caja.max, 2.0, 2.0, 2.0));
}

#[test]
fn geometria_unir_cajas() {
    let c_1 = AABB::new(&point(1.0, 1.0, 1.0), &point(2.0, 2.0, 2.0));
    let c_2 = AABB::new(&point(0.0, 0.0, 0.0), &point(1.0, 1.0, 1.0));

    let caja = AABB::union(&c_1, &c_2);

    assert!((value(caja.min.x) - 0.0).abs() < f64::EPSILON);
    assert!((value(caja.min.y) - 0.0).abs() < f64::EPSILON);
    assert!((value(caja.min.z) - 0.0).abs() < f64::EPSILON);
    assert!((value(caja.max.x) - 2.0).abs() < f64::EPSILON);
    assert!((value(caja.max.y) - 2.0).abs() < f64::EPSILON);
    assert!((value(caja.max.z) - 2.0).abs() < f64::EPSILON);
}

#[test]
fn geometria_ampliar_caja() {
    let mut caja = AABB::new(&point(1.0, 1.0, 1.0), &point(2.0, 2.0, 2.0));
    let c_2 = AABB::new(&point(0.0, 0.0, 0.0), &point(1.0, 1.0, 1.0));

    caja.resize_box(&c_2);

    assert!((value(caja.min.x) - 0.0).abs() < f64::EPSILON);
    assert!((value(caja.min.y) - 0.0).abs() < f64::EPSILON);
    assert!((value(caja.min.z) - 0.0).abs() < f64::EPSILON);
    assert!((value(caja.max.x) - 2.0).abs() < f64::EPSILON);
    assert!((value(caja.max.y) - 2.0).abs() < f64::EPSILON);
    assert!((value(caja.max.z) - 2.0).abs() < f64::EPSILON);
}

#[test]
fn new_orders_the_corners() {
    let b = AABB::new(&Point::new(5, -2, 9), &Point::new(1, 4, 9));
    assert_eq!(b.min(), Point::new(1, -2, 9));
    assert_eq!(b.max(), Point::new(5, 4, 9));
    assert_eq!(b, AABB::new(&Point::new(1, 4, 9), &Point::new(5, -2, 9)));
}

#[test]
fn empty_box_is_the_origin() {
    let b = AABB::empty();
    assert_eq!(b.min(), Point::new(0, 0, 0));
    assert_eq!(b.max(), Point::new(0, 0, 0));
    assert_eq!(Point::origin(), Point::new(0, 0, 0));
    assert!(b.point_inside(&Point::origin()));
    assert!(!b.point_inside(&Point::new(0, 0, 1)));
}

#[test]
fn from_point_holds_only_that_point() {
    let p = Point::new(3, -4, 5);
    let b = AABB::from_point(&p);
    assert_eq!(b.min(), p);
    assert_eq!(b.max(), p);
    assert!(b.point_inside(&p));
    assert!(!b.point_inside(&Point::new(3, -4, 6)));
}

fn sample_boxes() -> Vec<AABB> {
    vec![
        AABB::new(&Point::new(1, 1, 1), &Point::new(2, 2, 2)),
        AABB::new(&Point::new(0, 0, 0), &Point::new(1, 1, 1)),
        AABB::new(&Point::new(-7, 3, -2), &Point::new(4, 9, 0)),
        AABB::new(&Point::new(10, -10, 5), &Point::new(12, -5, 6)),
        AABB::from_point(&Point::new(-1, -1, -1)),
        AABB::empty(),
    ]
}

#[test]
fn union_is_idempotent_commutative_and_associative() {
    let boxes = sample_boxes();
    for a in &boxes {
        assert_eq!(a.union(a), *a);
        for b in &boxes {
            assert_eq!(a.union(b), b.union(a));
            for c in &boxes {
                assert_eq!(a.union(b).union(c), a.union(&b.union(c)));
            }
        }
    }
}

#[test]
fn union_contains_both_operands() {
    let boxes = sample_boxes();
    for a in &boxes {
        for b in &boxes {
            let u = a.union(b);
            for operand in [a, b] {
                assert!(u.point_inside(&operand.min()));
                assert!(u.point_inside(&operand.max()));
                assert_eq!(u.union(operand), u);
            }
        }
    }
}

#[test]
fn union_exact_values() {
    let a = AABB::new(&Point::new(-7, 3, -2), &Point::new(4, 9, 0));
    let b = AABB::new(&Point::new(10, -10, 5), &Point::new(12, -5, 6));
    let u = a.union(&b);
    assert_eq!(u.min(), Point::new(-7, -10, -2));
    assert_eq!(u.max(), Point::new(12, 9, 6));
}

#[test]
fn union_point_grows_the_box_to_the_point() {
    let a = AABB::new(&Point::new(0, 0, 0), &Point::new(2, 2, 2));
    let grown = AABB::union_point(&a, &Point::new(5, 1, -3));
    assert_eq!(grown.min(), Point::new(0, 0, -3));
    assert_eq!(grown.max(), Point::new(5, 2, 2));
    assert_eq!(AABB::union_point(&a, &Point::new(1, 1, 1)), a);
}

#[test]
fn intersect_and_overlaps() {
    let a = AABB::new(&Point::new(0, 0, 0), &Point::new(4, 4, 4));
    let b = AABB::new(&Point::new(2, 1, 3), &Point::new(9, 9, 9));
    let far = AABB::new(&Point::new(5, 5, 5), &Point::new(6, 6, 6));
    let touching = AABB::new(&Point::new(4, 4, 4), &Point::new(6, 6, 6));

    assert!(a.overlaps(&b));
    assert!(b.overlaps(&a));
    let common = a.intersect(&b);
    assert_eq!(common.min(), Point::new(2, 1, 3));
    assert_eq!(common.max(), Point::new(4, 4, 4));

    assert!(!a.overlaps(&far));
    let nothing = a.intersect(&far);
    assert_eq!(nothing.min(), Point::new(5, 5, 5));
    assert_eq!(nothing.max(), Point::new(4, 4, 4));

    assert!(a.overlaps(&touching));
    assert_eq!(a.intersect(&touching), AABB::from_point(&Point::new(4, 4, 4)));
}

#[test]
fn point_inside_counts_the_faces() {
    let a = AABB::new(&Point::new(0, 0, 0), &Point::new(4, 4, 4));
    assert!(a.point_inside(&Point::new(0, 0, 0)));
    assert!(a.point_inside(&Point::new(4, 4, 4)));
    assert!(a.point_inside(&Point::new(1, 2, 3)));
    assert!(!a.point_inside(&Point::new(5, 2, 3)));
    assert!(!a.point_inside(&Point::new(1, -1, 3)));
    assert!(!a.point_inside(&Point::new(1, 2, 5)));
}

#[test]
fn the_box_of_a_group_is_the_union_of_its_boxes() {
    let first = AABB::new(&Point::new(1, 1, 1), &Point::new(2, 2, 2));
    let second = AABB::new(&Point::new(3, -4, 1), &Point::new(5, 1, 8));
    let third = AABB::new(&Point::new(-9, 6, 7), &Point::new(-8, 7, 9));

    assert_eq!(AABB::enclosing(&vec![first]), first);
    assert_eq!(AABB::enclosing(&vec![second]), second);
    assert!(!AABB::enclosing(&vec![first]).point_inside(&Point::origin()));

    let two = AABB::enclosing(&vec![first, second]);
    assert_eq!(two, first.union(&second));
    assert_eq!(two.min(), Point::new(1, -4, 1));
    assert_eq!(two.max(), Point::new(5, 2, 8));

    let three = AABB::enclosing(&vec![first, second, third]);
    assert_eq!(three, first.union(&second).union(&third));
    assert_eq!(three.min(), Point::new(-9, -4, 1));
    assert_eq!(three.max(), Point::new(5, 7, 9));
    assert!(!three.point_inside(&Point::origin()));
    assert_eq!(AABB::enclosing(&vec![third, first, second]), three);
}

#[test]
fn the_box_of_a_group_without_shapes_is_the_empty_box() {
    assert_eq!(AABB::enclosing(&Vec::new()), AABB::empty());
}

#[test]
fn around_triangle_is_the_box_of_the_corners() {
    let b = AABB::around_triangle(&point(1.0, -1.0, 0.0), &point(1.0, 1.0, 0.0), &point(1.0, 0.0, 1.0));
    assert!(close(b.min(), 1.0, -1.0, 0.0));
    assert!(close(b.max(), 1.0, 1.0, 1.0));
}
