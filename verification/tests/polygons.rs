use asteroids::polygon::edge_crosses;
use asteroids::{is_point_in_polygon, Vec2, ONE};

fn point(x: i64, y: i64) -> Vec2 {
    Vec2::new(x * ONE, y * ONE)
}

fn triangle() -> Vec<Vec2> {
    vec![point(0, 0), point(12, 0), point(0, 9)]
}

fn hexagon() -> Vec<Vec2> {
    vec![
        Vec2::new(10 * ONE, 0),
        Vec2::new(5 * ONE, 8_660_254),
        Vec2::new(-5 * ONE, 8_660_254),
        Vec2::new(-10 * ONE, 0),
        Vec2::new(-5 * ONE, -8_660_254),
        Vec2::new(5 * ONE, -8_660_254),
    ]
}

/// A square of side 10 with a wedge cut into its top, down to (5, 7).
fn notched() -> Vec<Vec2> {
    vec![point(0, 0), point(10, 0), point(10, 10), point(5, 7), point(0, 10)]
}

fn centroid(polygon: &[Vec2]) -> Vec2 {
    let n = polygon.len() as i64;
    let x: i64 = polygon.iter().map(|v| v.x()).sum();
    let y: i64 = polygon.iter().map(|v| v.y()).sum();
    Vec2::new(x / n, y / n)
}

#[test]
fn triangle_holds_its_centroid() {
    let t = triangle();
    assert!(is_point_in_polygon(centroid(&t), &t));
    assert!(is_point_in_polygon(point(4, 3), &t));
}

#[test]
fn triangle_excludes_far_points() {
    let t = triangle();
    assert!(!is_point_in_polygon(point(1000, 1000), &t));
    assert!(!is_point_in_polygon(point(-1000, 3), &t));
    assert!(!is_point_in_polygon(point(1000, 3), &t));
    assert!(!is_point_in_polygon(point(3, -1000), &t));
    assert!(!is_point_in_polygon(point(3, 1000), &t));
}

#[test]
fn triangle_excludes_points_beyond_its_slope() {
    let t = triangle();
    assert!(!is_point_in_polygon(point(8, 8), &t));
    assert!(is_point_in_polygon(point(1, 8), &t));
    assert!(!is_point_in_polygon(point(2, 8), &t));
}

#[test]
fn hexagon_holds_its_centroid() {
    let h = hexagon();
    assert!(is_point_in_polygon(centroid(&h), &h));
    assert!(is_point_in_polygon(point(0, 0), &h));
    assert!(is_point_in_polygon(Vec2::new(9 * ONE, 1), &h));
}

#[test]
fn hexagon_excludes_far_points() {
    let h = hexagon();
    assert!(!is_point_in_polygon(point(500, 0), &h));
    assert!(!is_point_in_polygon(point(-500, 1), &h));
    assert!(!is_point_in_polygon(point(0, 500), &h));
    assert!(!is_point_in_polygon(point(0, -500), &h));
    assert!(!is_point_in_polygon(point(9, 8), &h));
}

#[test]
fn notched_polygon_holds_its_centroid() {
    let l = notched();
    assert_eq!(centroid(&l), Vec2::new(5 * ONE, 5_400_000));
    assert!(is_point_in_polygon(centroid(&l), &l));
    assert!(is_point_in_polygon(point(2, 8), &l));
    assert!(is_point_in_polygon(point(8, 8), &l));
    assert!(is_point_in_polygon(point(8, 2), &l));
}

#[test]
fn notched_polygon_excludes_its_notch() {
    let l = notched();
    assert!(!is_point_in_polygon(point(5, 9), &l));
    assert!(!is_point_in_polygon(point(5, 8), &l));
    assert!(!is_point_in_polygon(point(4, 8), &l));
    assert!(!is_point_in_polygon(point(100, 100), &l));
    assert!(!is_point_in_polygon(point(-100, 2), &l));
}

#[test]
fn winding_does_not_matter() {
    let mut l = notched();
    l.reverse();
    assert!(is_point_in_polygon(point(2, 8), &l));
    assert!(is_point_in_polygon(point(8, 2), &l));
    assert!(!is_point_in_polygon(point(5, 9), &l));
    let mut t = triangle();
    t.reverse();
    assert!(is_point_in_polygon(point(4, 3), &t));
    assert!(!is_point_in_polygon(point(8, 8), &t));
}

#[test]
fn level_edges_never_toggle() {
    let square = vec![point(0, 0), point(10, 0), point(10, 10), point(0, 10)];
    // level with the bottom edge, left of it: only the right edge could
    // count, and the point is not inside
    assert!(!is_point_in_polygon(point(-5, 0), &square));
    assert!(!is_point_in_polygon(point(-5, 10), &square));
    assert!(is_point_in_polygon(point(5, 5), &square));
    assert!(!edge_crosses(point(-5, 0), point(0, 0), point(10, 0)));
    assert!(!edge_crosses(point(5, 0), point(0, 0), point(10, 0)));
}

#[test]
fn fewer_than_three_vertices_enclose_nothing() {
    let none: Vec<Vec2> = Vec::new();
    assert!(!is_point_in_polygon(point(0, 0), &none));
    assert!(!is_point_in_polygon(point(0, 0), &[point(0, 0)]));
    assert!(!is_point_in_polygon(point(1, 1), &[point(0, 0), point(2, 2)]));
    assert!(!is_point_in_polygon(point(-1, 1), &[point(0, 0), point(0, 2)]));
}

#[test]
fn an_edge_counts_its_lower_end_only() {
    // the ray from (2, 7) passes through the corner (5, 7) of the notch,
    // where two edges meet: one of them counts it, the other does not
    let l = notched();
    assert!(is_point_in_polygon(point(2, 7), &l));
    assert!(!is_point_in_polygon(point(-2, 7), &l));
    assert!(!is_point_in_polygon(point(12, 7), &l));
    let diamond = vec![point(0, -5), point(5, 0), point(0, 5), point(-5, 0)];
    assert!(is_point_in_polygon(point(0, 0), &diamond));
    assert!(is_point_in_polygon(point(-4, 0), &diamond));
    assert!(!is_point_in_polygon(point(-6, 0), &diamond));
    assert!(!is_point_in_polygon(point(6, 0), &diamond));
}

#[test]
fn edge_crossing_is_decided_exactly() {
    // the edge from (0, 0) to (3, 3_000_001) passes just right of
    // (1, 1_000_000) at height 1_000_000
    let a = Vec2::new(0, 0);
    let b = Vec2::new(3, 3_000_001);
    assert!(edge_crosses(Vec2::new(0, 1_000_000), a, b));
    assert!(!edge_crosses(Vec2::new(1, 1_000_000), a, b));
    assert!(edge_crosses(Vec2::new(0, 1_000_000), b, a));
    assert!(!edge_crosses(Vec2::new(1, 1_000_000), b, a));
}

#[test]
fn points_outside_the_bounding_box_are_outside() {
    for polygon in [triangle(), hexagon(), notched()] {
        for x in -3..=3 {
            assert!(!is_point_in_polygon(point(x * 7, 50), &polygon));
            assert!(!is_point_in_polygon(point(x * 7, -50), &polygon));
            assert!(!is_point_in_polygon(point(50, x * 7), &polygon));
            assert!(!is_point_in_polygon(point(-50, x * 7), &polygon));
        }
    }
}

#[test]
fn a_corner_counts_by_the_rule_of_its_edges() {
    // the ray from a corner meets the edges that rise from its height
    // only: the lowest corner of this triangle counts as inside, the
    // highest corners of the next as outside
    let up = vec![Vec2::new(0, 0), Vec2::new(1, 0), Vec2::new(0, 1)];
    assert!(is_point_in_polygon(Vec2::new(0, 0), &up));
    let down = vec![Vec2::new(0, 0), Vec2::new(-1, 0), Vec2::new(0, -1)];
    assert!(!is_point_in_polygon(Vec2::new(0, 0), &down));
    assert!(!is_point_in_polygon(Vec2::new(-1, 0), &down));
}

fn turn(a: Vec2, b: Vec2, q: Vec2) -> i128 {
    let run = (b.x() - a.x()) as i128;
    let rise = (b.y() - a.y()) as i128;
    run * (q.y() - a.y()) as i128 - rise * (q.x() - a.x()) as i128
}

fn is_strictly_convex(polygon: &[Vec2]) -> bool {
    let n = polygon.len();
    n >= 3
        && (0..n).all(|i| {
            let before = (i + n - 1) % n;
            (0..n).all(|k| {
                k == i || k == before || turn(polygon[before], polygon[i], polygon[k]) > 0
            })
        })
}

fn is_strictly_within(p: Vec2, polygon: &[Vec2]) -> bool {
    let n = polygon.len();
    (0..n).all(|i| turn(polygon[(i + n - 1) % n], polygon[i], p) > 0)
}

#[test]
fn convex_polygons_hold_their_interior() {
    let shapes = vec![
        triangle(),
        hexagon(),
        vec![point(0, 0), point(10, 0), point(10, 10), point(0, 10)],
        vec![Vec2::new(0, 0), Vec2::new(7, 1), Vec2::new(9, 6), Vec2::new(4, 11), Vec2::new(-3, 5)],
    ];
    for shape in shapes {
        assert!(is_strictly_convex(&shape));
        let mut backward = shape.clone();
        backward.reverse();
        assert!(!is_strictly_convex(&backward));
        let low = shape.iter().map(|v| v.x().min(v.y())).min().unwrap() - 2;
        let high = shape.iter().map(|v| v.x().max(v.y())).max().unwrap() + 2;
        let step = ((high - low) / 23).max(1);
        let mut within = 0;
        let mut x = low;
        while x <= high {
            let mut y = low;
            while y <= high {
                let p = Vec2::new(x, y);
                if is_strictly_within(p, &shape) {
                    within += 1;
                    assert!(is_point_in_polygon(p, &shape), "{:?}", p);
                    assert!(is_point_in_polygon(p, &backward), "{:?}", p);
                }
                y += step;
            }
            x += step;
        }
        assert!(within > 0);
    }
}

#[test]
fn convex_polygons_hold_their_exact_centroid() {
    let shapes = vec![
        triangle(),
        hexagon(),
        vec![Vec2::new(0, 0), Vec2::new(6, 0), Vec2::new(6, 3), Vec2::new(0, 9)],
        vec![Vec2::new(-1, -1), Vec2::new(2, -1), Vec2::new(2, 2)],
    ];
    for shape in shapes {
        assert!(is_strictly_convex(&shape));
        let n = shape.len() as i64;
        let x: i64 = shape.iter().map(|v| v.x()).sum();
        let y: i64 = shape.iter().map(|v| v.y()).sum();
        assert_eq!((x % n, y % n), (0, 0));
        let middle = Vec2::new(x / n, y / n);
        assert!(is_strictly_within(middle, &shape));
        assert!(is_point_in_polygon(middle, &shape));
    }
}
