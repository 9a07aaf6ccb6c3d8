use std::collections::hash_map::DefaultHasher;
use std::hash::{Hash, Hasher};

use geom_primitives::{
    DelaunayKernel, Point2, Rat, SimpleCircle, SimpleEdge, SimpleTriangle, TrivialKernel,
};

fn edge(ax: i64, ay: i64, bx: i64, by: i64, den: i64) -> SimpleEdge {
    SimpleEdge::new(Point2::new(ax, ay, den), Point2::new(bx, by, den))
}

#[test]
fn test_edge_side() {
    let e = edge(0, 0, 1, 1, 1);
    assert!(e
        .side_query::<TrivialKernel>(&Point2::new(1, 0, 1))
        .is_on_right_side());
    assert!(e
        .side_query::<TrivialKernel>(&Point2::new(0, 1, 1))
        .is_on_left_side());
    assert!(e
        .side_query::<TrivialKernel>(&Point2::new(1, 1, 2))
        .is_on_line());
}

#[test]
fn test_intersects_middle() {
    let e1 = edge(0, 0, 5, 5, 1);
    // (-1.5, 1) -> (1, -1.5)
    let e2 = edge(-3, 2, 2, -3, 2);
    // (0.5, 4) -> (0.5, -4)
    let e3 = edge(1, 8, 1, -8, 2);
    assert!(!e1.intersects_edge_non_collinear::<TrivialKernel>(&e2));
    assert!(!e2.intersects_edge_non_collinear::<TrivialKernel>(&e1));
    assert!(e1.intersects_edge_non_collinear::<TrivialKernel>(&e3));
    assert!(e3.intersects_edge_non_collinear::<TrivialKernel>(&e1));
    assert!(e2.intersects_edge_non_collinear::<TrivialKernel>(&e3));
    assert!(e3.intersects_edge_non_collinear::<TrivialKernel>(&e2));
}

#[test]
fn test_intersects_end_points() {
    // One endpoint touching another edge: (0.33, 0.33) -> (1, 0).
    let e1 = edge(33, 33, 100, 0, 100);
    let e2 = edge(33, -100, 33, 100, 100);
    assert!(e1.intersects_edge_non_collinear::<TrivialKernel>(&e2));
    assert!(e2.intersects_edge_non_collinear::<TrivialKernel>(&e1));
    let e3 = edge(0, -1, 2, 1, 1);
    assert!(e1.intersects_edge_non_collinear::<TrivialKernel>(&e3));
    assert!(e3.intersects_edge_non_collinear::<TrivialKernel>(&e1));
    // Only end points overlap.
    let e4 = edge(33, 33, 0, 200, 100);
    assert!(e1.intersects_edge_non_collinear::<TrivialKernel>(&e4));
    assert!(e4.intersects_edge_non_collinear::<TrivialKernel>(&e1));
}

#[test]
fn test_side_exactly_one_classification() {
    let e = edge(0, 0, 1, 1, 1);
    for q in [
        Point2::new(1, 0, 1),
        Point2::new(0, 1, 1),
        Point2::new(1, 1, 2),
        Point2::new(-7, 3, 5),
    ] {
        let info = e.side_query::<TrivialKernel>(&q);
        let count = [
            info.is_on_left_side(),
            info.is_on_right_side(),
            info.is_on_line(),
        ]
        .iter()
        .filter(|b| **b)
        .count();
        assert_eq!(count, 1);
        assert_eq!(
            info.is_on_left_side_or_on_line(),
            info.is_on_left_side() || info.is_on_line()
        );
        assert_eq!(
            info.is_on_right_side_or_on_line(),
            info.is_on_right_side() || info.is_on_line()
        );
    }
}

#[test]
fn test_reversed_side_query() {
    let e = edge(0, 0, 1, 1, 1);
    let rev = SimpleEdge::new(e.to, e.from);
    for q in [
        Point2::new(1, 0, 1),
        Point2::new(0, 1, 1),
        Point2::new(1, 1, 2),
    ] {
        let a = e.side_query::<TrivialKernel>(&q).reversed();
        let b = rev.side_query::<TrivialKernel>(&q);
        assert!(a == b);
    }
}

#[test]
fn test_edge_length2() {
    let e = edge(0, 0, 1, 1, 1);
    assert_eq!(e.length2(), Rat::new(2, 1));
    let e2 = edge(1, 1, 1, -7, 2);
    assert_eq!(e2.length2(), Rat::new(16, 1));
}

#[test]
fn test_triangle_rotation_equality() {
    let v1 = Point2::new(4, 5, 1);
    let v2 = Point2::new(1, 2, 1);
    let v3 = Point2::new(10, 1, 1);
    let tri1 = SimpleTriangle::new(v1, v2, v3);
    let tri2 = SimpleTriangle::new(v2, v3, v1);
    let tri3 = SimpleTriangle::new(v3, v1, v2);
    // Rotations compare equal.
    assert!(tri1 == tri2);
    assert!(tri1 == tri3);
    // A reflected winding does not.
    let refl = SimpleTriangle::new(v1, v3, v2);
    assert!(tri1 != refl);
    // A degenerate duplicate-vertex triangle differs from tri1.
    let degen = SimpleTriangle::new(v1, v1, v2);
    assert!(tri1 != degen);
}

#[test]
fn test_triangle_double_area() {
    let t = SimpleTriangle::new(
        Point2::new(0, 0, 1),
        Point2::new(1, 0, 1),
        Point2::new(0, 1, 1),
    );
    assert_eq!(t.double_area(), Rat::new(1, 1));
    // Winding order does not change the unsigned area.
    let r = SimpleTriangle::new(
        Point2::new(0, 0, 1),
        Point2::new(0, 1, 1),
        Point2::new(1, 0, 1),
    );
    assert_eq!(r.double_area(), Rat::new(1, 1));
    // Collinear vertices give area zero.
    let d = SimpleTriangle::new(
        Point2::new(0, 0, 1),
        Point2::new(1, 1, 1),
        Point2::new(2, 2, 1),
    );
    assert_eq!(d.double_area(), Rat::new(0, 1));
}

#[test]
fn test_triangle_vertices() {
    let v1 = Point2::new(4, 5, 1);
    let v2 = Point2::new(1, 2, 1);
    let v3 = Point2::new(10, 1, 1);
    let t = SimpleTriangle::new(v1, v2, v3);
    let vs = t.vertices();
    assert!(vs[0] == v1 && vs[1] == v2 && vs[2] == v3);
}

#[test]
fn test_circle_contains() {
    let c = SimpleCircle::new(Point2::new(0, 0, 1), Rat::new(1, 1));
    assert!(!c.contains(&Point2::new(2, 0, 1)));
    assert!(!c.contains(&Point2::new(0, 2, 1)));
    assert!(c.contains(&Point2::new(1, 0, 1)));
    assert!(c.contains(&Point2::new(1, 1, 2)));
    assert!(!c.contains(&Point2::new(99, 15, 100)));
    // A negative radius contains nothing, not even its center.
    let neg = SimpleCircle::new(Point2::new(0, 0, 1), Rat::new(-1, 1));
    assert!(!neg.contains(&Point2::new(0, 0, 1)));
}

#[test]
fn test_rat_reduction() {
    assert_eq!(Rat::new(2, 4), Rat::new(1, 2));
    assert_eq!(Rat::new(-3, -6), Rat::new(1, 2));
    assert_eq!(Rat::new(3, -6), Rat::new(-1, 2));
    assert_eq!(Rat::new(0, 7), Rat::new(0, 1));
}

#[test]
fn test_ccw_order() {
    let a = Point2::new(0, 0, 1);
    let b = Point2::new(1, 0, 1);
    let c = Point2::new(0, 1, 1);
    assert!(TrivialKernel::is_ordered_ccw(&a, &b, &c));
    assert!(!TrivialKernel::is_ordered_ccw(&a, &c, &b));
    assert!(!TrivialKernel::is_ordered_ccw(&a, &b, &Point2::new(2, 0, 1)));
}

#[test]
fn test_is_projection_on_edge() {
    let e = edge(0, 0, 1, 1, 1);
    assert!(e.is_projection_on_edge(&Point2::new(1, 0, 1)));
    assert!(e.is_projection_on_edge(&Point2::new(0, 0, 1)));
    assert!(e.is_projection_on_edge(&Point2::new(1, 1, 1)));
    assert!(!e.is_projection_on_edge(&Point2::new(2, 2, 1)));
    assert!(!e.is_projection_on_edge(&Point2::new(-1, 0, 1)));
}

#[test]
fn test_project_point() {
    let e = edge(0, 0, 2, 0, 1);
    // Midpoint of the segment projects to t == 1/2.
    assert_eq!(e.project_point(&Point2::new(1, 3, 1)), Rat::new(1, 2));
    // The endpoints project to 0 and 1.
    assert_eq!(e.project_point(&Point2::new(0, 0, 1)), Rat::new(0, 1));
    assert_eq!(e.project_point(&Point2::new(2, 0, 1)), Rat::new(1, 1));
    // Beyond the ends the parameter leaves [0, 1].
    assert_eq!(e.project_point(&Point2::new(3, 0, 1)), Rat::new(3, 2));
    assert_eq!(e.project_point(&Point2::new(-1, 0, 1)), Rat::new(-1, 2));
}

#[test]
fn test_edge_distance() {
    let e = edge(0, 0, 1, 1, 1);
    assert_eq!(e.distance2(&Point2::new(1, 0, 1)), Rat::new(1, 2));
    assert_eq!(e.distance2(&Point2::new(0, 1, 1)), Rat::new(1, 2));
    assert_eq!(e.distance2(&Point2::new(-1, -1, 1)), Rat::new(2, 1));
    assert_eq!(e.distance2(&Point2::new(2, 2, 1)), Rat::new(2, 1));
}

#[test]
fn test_triangle_distance() {
    let t = SimpleTriangle::new(
        Point2::new(0, 0, 1),
        Point2::new(1, 0, 1),
        Point2::new(0, 1, 1),
    );
    assert_eq!(t.distance2(&Point2::new(1, 1, 4)), Rat::new(0, 1));
    assert_eq!(t.distance2(&Point2::new(-1, -1, 1)), Rat::new(2, 1));
    assert_eq!(t.distance2(&Point2::new(0, -1, 1)), Rat::new(1, 1));
    assert_eq!(t.distance2(&Point2::new(-1, 0, 1)), Rat::new(1, 1));
    assert_eq!(t.distance2(&Point2::new(1, 1, 1)), Rat::new(1, 2));
    assert_eq!(t.distance2(&Point2::new(1, 1, 2)), Rat::new(0, 1));
    // Just outside the hypotenuse the distance is positive.
    let d = t.distance2(&Point2::new(3, 3, 5));
    assert!(d.num * 1000 > d.den);
}

#[test]
fn test_triangle_hash() {
    let v1 = Point2::new(4, 5, 1);
    let v2 = Point2::new(1, 2, 1);
    let v3 = Point2::new(10, 1, 1);
    let tri1 = SimpleTriangle::new(v1, v2, v3);
    let tri2 = SimpleTriangle::new(v1, v3, v2);
    let tri3 = SimpleTriangle::new(v1, v1, v2);

    let get_hash = |triangle: &SimpleTriangle| {
        let mut hasher = DefaultHasher::new();
        triangle.canonical_vertices().hash(&mut hasher);
        hasher.finish()
    };

    let hash1 = get_hash(&tri1);
    let hash2 = get_hash(&tri2);
    let hash3 = get_hash(&tri3);
    assert_eq!(hash1, hash2);
    assert_ne!(hash1, hash3);
}

#[test]
fn test_nearest_point() {
    let e = edge(0, 0, 2, 0, 1);
    assert_eq!(e.nearest_point(&Point2::new(1, 3, 1)), Point2::new(1, 0, 1));
    assert_eq!(e.nearest_point(&Point2::new(-5, 1, 1)), Point2::new(0, 0, 1));
    assert_eq!(e.nearest_point(&Point2::new(7, -2, 1)), Point2::new(2, 0, 1));
}

#[test]
fn test_projection_distance2() {
    let e = edge(0, 0, 1, 1, 1);
    assert_eq!(e.projection_distance2(&Point2::new(1, 0, 1)), Rat::new(1, 2));
    assert_eq!(e.projection_distance2(&Point2::new(2, 2, 1)), Rat::new(0, 1));
    // The projection onto the infinite line ignores the segment ends.
    assert_eq!(e.projection_distance2(&Point2::new(3, 3, 1)), Rat::new(0, 1));
}

#[test]
fn test_triangle_nearest_point_on_edge() {
    let t = SimpleTriangle::new(
        Point2::new(0, 0, 1),
        Point2::new(1, 0, 1),
        Point2::new(0, 1, 1),
    );
    assert_eq!(
        t.nearest_point_on_edge(&Point2::new(1, 1, 1)),
        Point2::new(1, 1, 2)
    );
    assert_eq!(
        t.nearest_point_on_edge(&Point2::new(-1, -1, 1)),
        Point2::new(0, 0, 1)
    );
    assert_eq!(
        t.nearest_point_on_edge(&Point2::new(1, -2, 2)),
        Point2::new(1, 0, 2)
    );
}

#[test]
fn test_circumcenter() {
    let t = SimpleTriangle::new(
        Point2::new(0, 0, 1),
        Point2::new(2, 0, 1),
        Point2::new(0, 2, 1),
    );
    assert_eq!(t.circumcenter(), Point2::new(1, 1, 1));
    // Reversing the winding does not move the circumcenter.
    let r = SimpleTriangle::new(
        Point2::new(0, 2, 1),
        Point2::new(2, 0, 1),
        Point2::new(0, 0, 1),
    );
    assert_eq!(r.circumcenter(), Point2::new(1, 1, 1));
}

#[test]
fn test_barycentric_interpolation() {
    let t = SimpleTriangle::new(
        Point2::new(0, 0, 1),
        Point2::new(1, 0, 1),
        Point2::new(0, 1, 1),
    );
    let (l1, l2, l3) = t.barycentric_interpolation(&Point2::new(1, 1, 4));
    assert_eq!(l1, Rat::new(1, 2));
    assert_eq!(l2, Rat::new(1, 4));
    assert_eq!(l3, Rat::new(1, 4));
    // At a vertex the weights are a unit vector.
    let (m1, m2, m3) = t.barycentric_interpolation(&Point2::new(1, 0, 1));
    assert_eq!(m1, Rat::new(0, 1));
    assert_eq!(m2, Rat::new(1, 1));
    assert_eq!(m3, Rat::new(0, 1));
}

#[test]
fn test_mbr() {
    let e = edge(1, 0, 0, 1, 1);
    let b = e.mbr();
    assert_eq!(b.lower, Point2::new(0, 0, 1));
    assert_eq!(b.upper, Point2::new(1, 1, 1));

    let t = SimpleTriangle::new(
        Point2::new(0, 0, 1),
        Point2::new(1, 0, 1),
        Point2::new(0, 1, 1),
    );
    let bt = t.mbr();
    assert_eq!(bt.lower, Point2::new(0, 0, 1));
    assert_eq!(bt.upper, Point2::new(1, 1, 1));

    let c = SimpleCircle::new(Point2::new(0, 0, 1), Rat::new(1, 1));
    let bc = c.mbr();
    assert_eq!(bc.lower, Point2::new(-1, -1, 1));
    assert_eq!(bc.upper, Point2::new(1, 1, 1));
}
