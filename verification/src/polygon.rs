//! The even-odd test of a point against a polygon.

use vstd::prelude::*;
use crate::vector::{Vec2, Vector};

verus! {

/// The values of a sequence of vectors.
pub open spec fn values(vertices: Seq<Vec2>) -> Seq<Vector> {
    vertices.map_values(|v: Vec2| v@)
}

/// The vertex before vertex `i` on the loop of `count` vertices.
pub open spec fn previous(i: int, count: int) -> int {
    if i == 0 {
        count - 1
    } else {
        i - 1
    }
}

/// Whether the height of `p` lies between those of `a` and `b`, the
/// upper end excluded.
pub open spec fn straddles(p: Vector, a: Vector, b: Vector) -> bool {
    (a.y > p.y) != (b.y > p.y)
}

/// For an edge that straddles the height of `p`: whether `p` lies
/// strictly left of the point where the edge from `a` to `b` meets that
/// height, `p.x < a.x + (b.x - a.x) * (p.y - a.y) / (b.y - a.y)`, decided
/// exactly by multiplying out the division.
pub open spec fn left_of_edge(p: Vector, a: Vector, b: Vector) -> bool {
    let rise = b.y - a.y;
    if rise > 0 {
        (p.x - a.x) * rise < (b.x - a.x) * (p.y - a.y)
    } else {
        (p.x - a.x) * rise > (b.x - a.x) * (p.y - a.y)
    }
}

/// Whether the ray from `p` toward positive x meets the edge from `a`
/// to `b`. A level edge never does.
pub open spec fn crosses(p: Vector, a: Vector, b: Vector) -> bool {
    straddles(p, a, b) && left_of_edge(p, a, b)
}

/// How many of the edges that end at vertices `0..n` the ray from `p`
/// meets. Edge `i` joins vertex `i` to the vertex before it on the loop.
pub open spec fn crossings(p: Vector, polygon: Seq<Vector>, n: nat) -> nat
    decreases n,
{
    if n == 0 {
        0
    } else {
        let i = n - 1;
        let rest = crossings(p, polygon, i as nat);
        if crosses(p, polygon[i], polygon[previous(i, polygon.len() as int)]) {
            rest + 1
        } else {
            rest
        }
    }
}

/// The even-odd rule: `p` is inside when the ray from it meets an odd
/// number of edges. Fewer than three vertices enclose nothing.
pub open spec fn inside(p: Vector, polygon: Seq<Vector>) -> bool {
    polygon.len() >= 3 && crossings(p, polygon, polygon.len()) % 2 == 1
}

/// Whether `point` lies inside the polygon whose vertices, in order
/// around the loop, are `polygon_vertices`.
pub fn is_point_in_polygon(point: Vec2, polygon_vertices: &[Vec2]) -> (is_inside: bool)
    ensures
        is_inside == inside(point@, values(polygon_vertices@)),
{
    let vertex_count: usize = polygon_vertices.len();
    if vertex_count < 3 {
        return false;
    }
    let ghost polygon = values(polygon_vertices@);
    let mut is_inside_polygon: bool = false;
    let mut current_vertex_index: usize = 0;
    let mut next_vertex_index: usize = vertex_count - 1;
    while current_vertex_index < vertex_count
        invariant
            vertex_count == polygon_vertices@.len(),
            vertex_count >= 3,
            polygon == values(polygon_vertices@),
            current_vertex_index <= vertex_count,
            next_vertex_index < vertex_count,
            current_vertex_index < vertex_count ==> next_vertex_index == previous(
                current_vertex_index as int,
                vertex_count as int,
            ),
            is_inside_polygon == (crossings(point@, polygon, current_vertex_index as nat) % 2 == 1),
        decreases vertex_count - current_vertex_index,
    {
        let current_vertex: Vec2 = polygon_vertices[current_vertex_index];
        let next_vertex: Vec2 = polygon_vertices[next_vertex_index];
        assert(polygon[current_vertex_index as int] == current_vertex@);
        assert(polygon[next_vertex_index as int] == next_vertex@);
        if edge_crosses(point, current_vertex, next_vertex) {
            is_inside_polygon = !is_inside_polygon;
        }
        next_vertex_index = current_vertex_index;
        current_vertex_index += 1;
    }
    is_inside_polygon
}

/// Whether the ray from `point` toward positive x meets the edge from
/// `a` to `b`.
pub fn edge_crosses(point: Vec2, a: Vec2, b: Vec2) -> (r: bool)
    ensures
        r == crosses(point@, a@, b@),
{
    let is_vertically_between: bool = (a.y() > point.y()) != (b.y() > point.y());
    if !is_vertically_between {
        return false;
    }
    let rise: i128 = b.y() as i128 - a.y() as i128;
    let run: i128 = b.x() as i128 - a.x() as i128;
    let across: i128 = point.x() as i128 - a.x() as i128;
    let up: i128 = point.y() as i128 - a.y() as i128;
    assert(-4_000_000_000_000_000_000_000_000 <= across * rise <= 4_000_000_000_000_000_000_000_000)
        by (nonlinear_arith)
        requires
            -2_000_000_000_000 <= across <= 2_000_000_000_000,
            -2_000_000_000_000 <= rise <= 2_000_000_000_000,
    ;
    assert(-4_000_000_000_000_000_000_000_000 <= run * up <= 4_000_000_000_000_000_000_000_000)
        by (nonlinear_arith)
        requires
            -2_000_000_000_000 <= run <= 2_000_000_000_000,
            -2_000_000_000_000 <= up <= 2_000_000_000_000,
    ;
    if rise > 0 {
        across * rise < run * up
    } else {
        across * rise > run * up
    }
}

/// An edge is met or not whichever way it is walked.
pub proof fn lemma_crosses_either_way(p: Vector, a: Vector, b: Vector)
    ensures
        crosses(p, a, b) == crosses(p, b, a),
{
    let across = p.x - a.x;
    let run = b.x - a.x;
    let up = p.y - a.y;
    let rise = b.y - a.y;
    assert((across - run) * (-rise) == run * rise - across * rise) by (nonlinear_arith);
    assert((-run) * (up - rise) == run * rise - run * up) by (nonlinear_arith);
    assert(p.x - b.x == across - run && a.x - b.x == -run && p.y - b.y == up - rise && a.y - b.y
        == -rise);
}

/// The even-odd rule does not depend on the winding: a point is inside a
/// polygon exactly if it is inside the polygon walked the other way.
pub proof fn lemma_winding_does_not_matter(p: Vector, polygon: Seq<Vector>)
    ensures
        inside(p, polygon) == inside(p, polygon.reverse()),
{
    let count = polygon.len();
    if count >= 3 {
        lemma_reversed_crossings(p, polygon, count);
        assert(crossings(p, polygon, 1) == crossings(p, polygon, 0) + if crosses(
            p,
            polygon[0],
            polygon[count - 1],
        ) {
            1nat
        } else {
            0nat
        });
        assert(crossings(p, polygon, 0) == 0);
    }
}

/// The first `m` edges of the reversed polygon are the closing edge and
/// the last `m - 1` edges of the polygon, each walked the other way.
proof fn lemma_reversed_crossings(p: Vector, polygon: Seq<Vector>, m: nat)
    requires
        1 <= m <= polygon.len(),
    ensures
        crossings(p, polygon.reverse(), m) + crossings(p, polygon, (polygon.len() - m + 1) as nat)
            == crossings(p, polygon, polygon.len()) + if crosses(
            p,
            polygon[0],
            polygon[polygon.len() - 1],
        ) {
            1nat
        } else {
            0nat
        },
    decreases m,
{
    let count = polygon.len() as int;
    let reversed = polygon.reverse();
    let i = m - 1;
    assert(reversed[i] == polygon[count - 1 - i]);
    assert(reversed[previous(i, count)] == polygon[count - 1 - previous(i, count)]);
    if m == 1 {
        assert(crossings(p, reversed, 0) == 0);
        lemma_crosses_either_way(p, polygon[0], polygon[count - 1]);
    } else {
        lemma_reversed_crossings(p, polygon, (m - 1) as nat);
        // edge `i` of the reversed polygon is edge `count - i` of the
        // polygon, walked the other way
        let j = count - i;
        assert(previous(j, count) == j - 1);
        lemma_crosses_either_way(p, polygon[j], polygon[j - 1]);
        assert(crossings(p, polygon, (j + 1) as nat) == crossings(p, polygon, j as nat)
            + if crosses(p, polygon[j], polygon[j - 1]) {
            1nat
        } else {
            0nat
        });
    }
}

/// Twice the area of the triangle `a`, `b`, `q`, signed: positive when
/// `q` lies left of the way from `a` to `b`, negative when it lies right
/// of it, zero when the three are in line.
pub open spec fn turn(a: Vector, b: Vector, q: Vector) -> int {
    (b.x - a.x) * (q.y - a.y) - (b.y - a.y) * (q.x - a.x)
}

/// The vertex after vertex `i` on the loop of `count` vertices.
pub open spec fn following(i: int, count: int) -> int {
    if i + 1 == count {
        0
    } else {
        i + 1
    }
}

/// Whether the polygon is strictly convex and walked with its inside to
/// the left: every vertex but the two ends of an edge lies strictly left
/// of the edge.
pub open spec fn is_strictly_convex(polygon: Seq<Vector>) -> bool {
    &&& polygon.len() >= 3
    &&& forall|i: int, k: int|
        #![trigger polygon[i], polygon[k]]
        0 <= i < polygon.len() && 0 <= k < polygon.len() && k != i && k != previous(
            i,
            polygon.len() as int,
        ) ==> turn(polygon[previous(i, polygon.len() as int)], polygon[i], polygon[k]) > 0
}

/// Whether `p` lies strictly left of every edge of the polygon.
pub open spec fn is_strictly_within(p: Vector, polygon: Seq<Vector>) -> bool {
    forall|i: int|
        0 <= i < polygon.len() ==> turn(
            polygon[previous(i, polygon.len() as int)],
            #[trigger] polygon[i],
            p,
        ) > 0
}

/// Whether the edge that ends at vertex `i` rises past the height of
/// `p`: it starts on or below it and ends above it.
pub open spec fn rises(p: Vector, polygon: Seq<Vector>, i: int) -> bool {
    polygon[previous(i, polygon.len() as int)].y <= p.y < polygon[i].y
}

/// A strictly convex polygon holds every point strictly within it,
/// whichever way it is walked.
///
/// The ray from such a point meets the one edge that rises past it on
/// its right, and no other.
pub proof fn lemma_convex_polygon_holds_its_interior(p: Vector, polygon: Seq<Vector>)
    requires
        is_strictly_convex(polygon) && is_strictly_within(p, polygon) || is_strictly_convex(
            polygon.reverse(),
        ) && is_strictly_within(p, polygon.reverse()),
    ensures
        inside(p, polygon),
{
    if is_strictly_convex(polygon) && is_strictly_within(p, polygon) {
        lemma_one_crossing(p, polygon);
    } else {
        lemma_one_crossing(p, polygon.reverse());
        lemma_winding_does_not_matter(p, polygon);
    }
}

/// The ray from a point strictly within a strictly convex polygon meets
/// exactly one edge.
proof fn lemma_one_crossing(p: Vector, polygon: Seq<Vector>)
    requires
        is_strictly_convex(polygon),
        is_strictly_within(p, polygon),
    ensures
        crossings(p, polygon, polygon.len()) == 1,
{
    let u = lemma_some_edge_rises(p, polygon);
    assert forall|i: int| 0 <= i < polygon.len() && i != u implies !rises(p, polygon, i) by {
        if rises(p, polygon, i) {
            lemma_one_edge_rises(p, polygon, i, u);
        }
    }
    lemma_crossings_of_the_interior(p, polygon, u, polygon.len());
}

/// The sum of the first `n` vertices.
pub open spec fn vertex_sum(polygon: Seq<Vector>, n: nat) -> Vector
    decreases n,
{
    if n == 0 {
        Vector { x: 0, y: 0 }
    } else {
        vertex_sum(polygon, (n - 1) as nat).plus(polygon[n - 1])
    }
}

/// Whether `p` is the centroid of the vertices, exactly: the sum of the
/// vertices is `p` times their number.
pub open spec fn is_centroid(p: Vector, polygon: Seq<Vector>) -> bool {
    vertex_sum(polygon, polygon.len()).x == polygon.len() * p.x && vertex_sum(
        polygon,
        polygon.len(),
    ).y == polygon.len() * p.y
}

/// A strictly convex polygon holds the centroid of its vertices.
///
/// This is said of the exact centroid. Where the mean of the vertices is
/// no point of the grid, the point nearest to it may lie on the polygon's
/// edge, and there the even-odd rule counts some points as inside and
/// others as outside.
pub proof fn lemma_convex_polygon_holds_its_centroid(p: Vector, polygon: Seq<Vector>)
    requires
        is_strictly_convex(polygon),
        is_centroid(p, polygon),
    ensures
        is_strictly_within(p, polygon),
        inside(p, polygon),
{
    assert forall|i: int| 0 <= i < polygon.len() implies turn(
        polygon[previous(i, polygon.len() as int)],
        #[trigger] polygon[i],
        p,
    ) > 0 by {
        lemma_centroid_left_of_edge(p, polygon, i);
    }
    lemma_one_crossing(p, polygon);
}

/// The centroid of the vertices of a strictly convex polygon lies
/// strictly left of the edge that ends at vertex `i`.
proof fn lemma_centroid_left_of_edge(p: Vector, polygon: Seq<Vector>, i: int)
    requires
        is_strictly_convex(polygon),
        is_centroid(p, polygon),
        0 <= i < polygon.len(),
    ensures
        turn(polygon[previous(i, polygon.len() as int)], polygon[i], p) > 0,
{
    let count = polygon.len() as int;
    let other = following(i, count);
    lemma_turn_sum(polygon, i, polygon.len(), other);
    lemma_mean_turn(
        count,
        turn_sum(polygon, i, polygon.len()),
        polygon[previous(i, count)],
        polygon[i],
        vertex_sum(polygon, polygon.len()),
        p,
    );
}

/// If the turns of `count` points about an edge add up to more than
/// nothing, their mean lies strictly left of the edge.
proof fn lemma_mean_turn(count: int, total: int, a: Vector, b: Vector, sum: Vector, p: Vector)
    requires
        count > 0,
        total > 0,
        total == (b.x - a.x) * sum.y - (b.y - a.y) * sum.x - count * ((b.x - a.x) * a.y - (b.y
            - a.y) * a.x),
        sum.x == count * p.x,
        sum.y == count * p.y,
    ensures
        turn(a, b, p) > 0,
{
    let run = b.x - a.x;
    let rise = b.y - a.y;
    let level = run * a.y - rise * a.x;
    let t = turn(a, b, p);
    assert(t == run * p.y - rise * p.x - level) by (nonlinear_arith)
        requires
            t == run * (p.y - a.y) - rise * (p.x - a.x),
            level == run * a.y - rise * a.x,
    ;
    assert(run * sum.y == count * (run * p.y) && rise * sum.x == count * (rise * p.x))
        by (nonlinear_arith)
        requires
            sum.x == count * p.x,
            sum.y == count * p.y,
    ;
    assert(count * t == count * (run * p.y) - count * (rise * p.x) - count * level)
        by (nonlinear_arith)
        requires
            t == run * p.y - rise * p.x - level,
    ;
    assert(count * t == total);
    assert(t > 0) by (nonlinear_arith)
        requires
            count * t > 0,
            count > 0,
    ;
}

/// The sum of the turns of the first `n` vertices about the edge that
/// ends at vertex `i`.
spec fn turn_sum(polygon: Seq<Vector>, i: int, n: nat) -> int
    decreases n,
{
    if n == 0 {
        0
    } else {
        turn_sum(polygon, i, (n - 1) as nat) + turn(
            polygon[previous(i, polygon.len() as int)],
            polygon[i],
            polygon[n - 1],
        )
    }
}

/// The turns of the vertices of a strictly convex polygon about one of
/// its edges add up to the turn of their sum, and to more than nothing
/// once a vertex `other` that is no end of the edge is among them.
proof fn lemma_turn_sum(polygon: Seq<Vector>, i: int, n: nat, other: int)
    requires
        is_strictly_convex(polygon),
        0 <= i < polygon.len(),
        n <= polygon.len(),
    ensures
        ({
            let a = polygon[previous(i, polygon.len() as int)];
            let b = polygon[i];
            let sum = vertex_sum(polygon, n);
            turn_sum(polygon, i, n) == (b.x - a.x) * sum.y - (b.y - a.y) * sum.x - n * ((b.x
                - a.x) * a.y - (b.y - a.y) * a.x)
        }),
        turn_sum(polygon, i, n) >= 0,
        0 <= other < n && other != i && other != previous(i, polygon.len() as int) ==> turn_sum(
            polygon,
            i,
            n,
        ) > 0,
    decreases n,
{
    if n > 0 {
        let count = polygon.len() as int;
        let a = polygon[previous(i, count)];
        let b = polygon[i];
        let k = n - 1;
        let q = polygon[k];
        lemma_turn_sum(polygon, i, k as nat, other);
        let run = b.x - a.x;
        let rise = b.y - a.y;
        let before = vertex_sum(polygon, k as nat);
        let sum = vertex_sum(polygon, n);
        assert(sum.x == before.x + q.x && sum.y == before.y + q.y);
        let level = run * a.y - rise * a.x;
        assert(turn(a, b, q) == run * q.y - rise * q.x - level) by (nonlinear_arith)
            requires
                turn(a, b, q) == run * (q.y - a.y) - rise * (q.x - a.x),
                level == run * a.y - rise * a.x,
        ;
        assert(run * sum.y - rise * sum.x - n * level == (run * before.y - rise * before.x - k
            * level) + (run * q.y - rise * q.x - level)) by (nonlinear_arith)
            requires
                sum.x == before.x + q.x,
                sum.y == before.y + q.y,
                n == k + 1,
        ;
        if k == i || k == previous(i, count) {
            assert(turn(a, b, q) == 0) by (nonlinear_arith)
                requires
                    q == a || q == b,
                    turn(a, b, q) == (b.x - a.x) * (q.y - a.y) - (b.y - a.y) * (q.x - a.x),
            ;
        } else {
            assert(turn(polygon[previous(i, count)], polygon[i], polygon[k]) > 0);
        }
    }
}

/// A point strictly left of the way from `a` to `b` is met by the edge
/// between them exactly if the way rises past its height.
proof fn lemma_edge_met_if_it_rises(p: Vector, a: Vector, b: Vector)
    requires
        turn(a, b, p) > 0,
    ensures
        crosses(p, b, a) == (a.y <= p.y < b.y),
{
    lemma_crosses_either_way(p, b, a);
    let rise = b.y - a.y;
    let run = b.x - a.x;
    let across = p.x - a.x;
    let up = p.y - a.y;
    assert(turn(a, b, p) == run * up - rise * across);
    assert(rise * across == across * rise) by (nonlinear_arith);
}

/// The ray from a point strictly within the polygon meets, among the
/// edges that end at vertices `0..n`, the one that rises, if it is among
/// them.
proof fn lemma_crossings_of_the_interior(p: Vector, polygon: Seq<Vector>, u: int, n: nat)
    requires
        is_strictly_within(p, polygon),
        n <= polygon.len(),
        0 <= u < polygon.len(),
        rises(p, polygon, u),
        forall|i: int| 0 <= i < polygon.len() && i != u ==> !rises(p, polygon, i),
    ensures
        crossings(p, polygon, n) == if u < n {
            1nat
        } else {
            0nat
        },
    decreases n,
{
    if n > 0 {
        let i = n - 1;
        lemma_crossings_of_the_interior(p, polygon, u, i as nat);
        let a = polygon[previous(i, polygon.len() as int)];
        let b = polygon[i];
        assert(turn(a, b, p) > 0);
        lemma_edge_met_if_it_rises(p, a, b);
        assert(crosses(p, b, a) == rises(p, polygon, i));
    }
}

/// No two edges of a strictly convex polygon rise past the same height:
/// each would have to meet that height further left than the other.
proof fn lemma_one_edge_rises(p: Vector, polygon: Seq<Vector>, i: int, j: int)
    requires
        is_strictly_convex(polygon),
        0 <= i < polygon.len(),
        0 <= j < polygon.len(),
        rises(p, polygon, i),
        rises(p, polygon, j),
    ensures
        i == j,
{
    if i != j {
        lemma_rising_edges_meet(p, polygon, i, j);
    }
}

/// Where two different edges of a strictly convex polygon both rise past
/// a height, the weighted turns of each about the other are positive and
/// yet add up to nothing.
proof fn lemma_rising_edges_meet(p: Vector, polygon: Seq<Vector>, i: int, j: int)
    requires
        is_strictly_convex(polygon),
        0 <= i < polygon.len(),
        0 <= j < polygon.len(),
        i != j,
        rises(p, polygon, i),
        rises(p, polygon, j),
    ensures
        i == j,
{
    let count = polygon.len() as int;
    let a = polygon[previous(i, count)];
    let b = polygon[i];
    let c = polygon[previous(j, count)];
    let d = polygon[j];
    let h = p.y;
    // the ends of each edge lie strictly left of the other
    assert(turn(a, b, polygon[previous(j, count)]) > 0);
    assert(turn(a, b, polygon[j]) > 0);
    assert(turn(c, d, polygon[previous(i, count)]) > 0);
    assert(turn(c, d, polygon[i]) > 0);
    lemma_weighted_turn(a, b, c, d, h);
    lemma_weighted_turn(c, d, a, b, h);
    let first = (d.y - h) * turn(a, b, c) + (h - c.y) * turn(a, b, d);
    let second = (b.y - h) * turn(c, d, a) + (h - a.y) * turn(c, d, b);
    assert(first > 0) by (nonlinear_arith)
        requires
            first == (d.y - h) * turn(a, b, c) + (h - c.y) * turn(a, b, d),
            d.y - h > 0,
            turn(a, b, c) > 0,
            h - c.y >= 0,
            turn(a, b, d) > 0,
    ;
    assert(second > 0) by (nonlinear_arith)
        requires
            second == (b.y - h) * turn(c, d, a) + (h - a.y) * turn(c, d, b),
            b.y - h > 0,
            turn(c, d, a) > 0,
            h - a.y >= 0,
            turn(c, d, b) > 0,
    ;
    assert(first + second == 0);
}

/// Where the line through `a` and `b` meets the height `h`, times the
/// rise of the line.
spec fn meeting(a: Vector, b: Vector, h: int) -> int {
    (b.x - a.x) * (h - a.y) + (b.y - a.y) * a.x
}

/// The turns of the ends of the edge from `c` to `d` about the edge from
/// `a` to `b`, weighted as the height `h` divides the second edge, tell
/// which of the two edges meets that height further right.
proof fn lemma_weighted_turn(a: Vector, b: Vector, c: Vector, d: Vector, h: int)
    ensures
        (d.y - h) * turn(a, b, c) + (h - c.y) * turn(a, b, d) == (d.y - c.y) * meeting(a, b, h)
            - (b.y - a.y) * meeting(c, d, h),
{
    let run = b.x - a.x;
    let rise = b.y - a.y;
    let alpha = d.y - h;
    let beta = h - c.y;
    let other_rise = d.y - c.y;
    let other_run = d.x - c.x;
    assert(turn(a, b, c) == run * (c.y - a.y) - rise * (c.x - a.x));
    assert(turn(a, b, d) == run * (d.y - a.y) - rise * (d.x - a.x));
    let heights = alpha * (c.y - a.y) + beta * (d.y - a.y);
    let sides = alpha * (c.x - a.x) + beta * (d.x - a.x);
    let first = turn(a, b, c);
    let second = turn(a, b, d);
    let u1 = c.y - a.y;
    let v1 = c.x - a.x;
    let u2 = d.y - a.y;
    let v2 = d.x - a.x;
    assert(alpha * first == run * (alpha * u1) - rise * (alpha * v1)) by (nonlinear_arith)
        requires
            first == run * u1 - rise * v1,
    ;
    assert(beta * second == run * (beta * u2) - rise * (beta * v2)) by (nonlinear_arith)
        requires
            second == run * u2 - rise * v2,
    ;
    assert(run * heights == run * (alpha * u1) + run * (beta * u2)) by (nonlinear_arith)
        requires
            heights == alpha * u1 + beta * u2,
    ;
    assert(rise * sides == rise * (alpha * v1) + rise * (beta * v2)) by (nonlinear_arith)
        requires
            sides == alpha * v1 + beta * v2,
    ;
    assert(alpha * first + beta * second == run * heights - rise * sides);
    assert(heights == other_rise * (h - a.y)) by (nonlinear_arith)
        requires
            heights == alpha * (c.y - a.y) + beta * (d.y - a.y),
            alpha == d.y - h,
            beta == h - c.y,
            other_rise == d.y - c.y,
    ;
    assert(sides == meeting(c, d, h) - other_rise * a.x) by (nonlinear_arith)
        requires
            sides == alpha * (c.x - a.x) + beta * (d.x - a.x),
            alpha == d.y - h,
            beta == h - c.y,
            other_rise == d.y - c.y,
            meeting(c, d, h) == (d.x - c.x) * (h - c.y) + (d.y - c.y) * c.x,
    ;
    assert(run * heights - rise * sides == other_rise * meeting(a, b, h) - rise * meeting(c, d, h))
        by (nonlinear_arith)
        requires
            heights == other_rise * (h - a.y),
            sides == meeting(c, d, h) - other_rise * a.x,
            meeting(a, b, h) == run * (h - a.y) + rise * a.x,
    ;
}

/// Some edge of a strictly convex polygon rises past the height of a
/// point strictly within it.
proof fn lemma_some_edge_rises(p: Vector, polygon: Seq<Vector>) -> (u: int)
    requires
        is_strictly_convex(polygon),
        is_strictly_within(p, polygon),
    ensures
        0 <= u < polygon.len(),
        rises(p, polygon, u),
{
    let high = lemma_highest(polygon, polygon.len());
    let low = lemma_lowest(polygon, polygon.len());
    lemma_peak_is_above(p, polygon, high);
    lemma_pit_is_not_above(p, polygon, low);
    lemma_rise_before(p, polygon, high, low)
}

/// A vertex that is as high as any of the first `n`.
proof fn lemma_highest(polygon: Seq<Vector>, n: nat) -> (m: int)
    requires
        1 <= n <= polygon.len(),
    ensures
        0 <= m < n,
        forall|k: int| 0 <= k < n ==> (#[trigger] polygon[k]).y <= polygon[m].y,
    decreases n,
{
    if n == 1 {
        0
    } else {
        let m = lemma_highest(polygon, (n - 1) as nat);
        if polygon[n - 1].y > polygon[m].y {
            n - 1
        } else {
            m
        }
    }
}

/// A vertex that is as low as any of the first `n`.
proof fn lemma_lowest(polygon: Seq<Vector>, n: nat) -> (m: int)
    requires
        1 <= n <= polygon.len(),
    ensures
        0 <= m < n,
        forall|k: int| 0 <= k < n ==> (#[trigger] polygon[k]).y >= polygon[m].y,
    decreases n,
{
    if n == 1 {
        0
    } else {
        let m = lemma_lowest(polygon, (n - 1) as nat);
        if polygon[n - 1].y < polygon[m].y {
            n - 1
        } else {
            m
        }
    }
}

/// The highest vertex of a strictly convex polygon lies above every
/// point strictly within it.
proof fn lemma_peak_is_above(p: Vector, polygon: Seq<Vector>, m: int)
    requires
        is_strictly_convex(polygon),
        is_strictly_within(p, polygon),
        0 <= m < polygon.len(),
        forall|k: int| 0 <= k < polygon.len() ==> (#[trigger] polygon[k]).y <= polygon[m].y,
    ensures
        polygon[m].y > p.y,
{
    let count = polygon.len() as int;
    let t = polygon[m];
    let a = polygon[previous(m, count)];
    let c = polygon[following(m, count)];
    assert(previous(following(m, count), count) == m);
    assert(turn(a, t, p) > 0);
    assert(turn(t, polygon[following(m, count)], p) > 0);
    assert(turn(polygon[previous(m, count)], polygon[m], polygon[following(m, count)]) > 0);
    if p.y >= t.y {
        assert(turn(a, t, p) == (a.y - t.y) * (p.x - t.x) - (a.x - t.x) * (p.y - t.y))
            by (nonlinear_arith)
            requires
                turn(a, t, p) == (t.x - a.x) * (p.y - a.y) - (t.y - a.y) * (p.x - a.x),
        ;
        assert(turn(a, t, c) == (a.y - t.y) * (c.x - t.x) - (a.x - t.x) * (c.y - t.y))
            by (nonlinear_arith)
            requires
                turn(a, t, c) == (t.x - a.x) * (c.y - a.y) - (t.y - a.y) * (c.x - a.x),
        ;
        assert(turn(t, c, p) == (c.x - t.x) * (p.y - t.y) - (c.y - t.y) * (p.x - t.x));
        lemma_corner(a.x - t.x, a.y - t.y, c.x - t.x, c.y - t.y, p.x - t.x, p.y - t.y);
    }
}

/// The lowest vertex of a strictly convex polygon lies on or below no
/// height above a point strictly within it: it is not above the point.
proof fn lemma_pit_is_not_above(p: Vector, polygon: Seq<Vector>, m: int)
    requires
        is_strictly_convex(polygon),
        is_strictly_within(p, polygon),
        0 <= m < polygon.len(),
        forall|k: int| 0 <= k < polygon.len() ==> (#[trigger] polygon[k]).y >= polygon[m].y,
    ensures
        polygon[m].y <= p.y,
{
    let count = polygon.len() as int;
    let t = polygon[m];
    let a = polygon[previous(m, count)];
    let c = polygon[following(m, count)];
    assert(previous(following(m, count), count) == m);
    assert(turn(a, t, p) > 0);
    assert(turn(t, polygon[following(m, count)], p) > 0);
    assert(turn(polygon[previous(m, count)], polygon[m], polygon[following(m, count)]) > 0);
    if p.y < t.y {
        assert(turn(a, t, p) == (t.y - a.y) * (t.x - p.x) - (t.x - a.x) * (t.y - p.y))
            by (nonlinear_arith)
            requires
                turn(a, t, p) == (t.x - a.x) * (p.y - a.y) - (t.y - a.y) * (p.x - a.x),
        ;
        assert(turn(a, t, c) == (t.y - a.y) * (t.x - c.x) - (t.x - a.x) * (t.y - c.y))
            by (nonlinear_arith)
            requires
                turn(a, t, c) == (t.x - a.x) * (c.y - a.y) - (t.y - a.y) * (c.x - a.x),
        ;
        assert(turn(t, c, p) == (t.x - c.x) * (t.y - p.y) - (t.y - c.y) * (t.x - p.x))
            by (nonlinear_arith)
            requires
                turn(t, c, p) == (c.x - t.x) * (p.y - t.y) - (c.y - t.y) * (p.x - t.x),
        ;
        lemma_corner(t.x - a.x, t.y - a.y, t.x - c.x, t.y - c.y, t.x - p.x, t.y - p.y);
    }
}

/// At a corner at the origin whose two edges come from `(ax, ay)` and
/// leave for `(cx, cy)`, both on or below it, and which turns left, no
/// point `(px, py)` on or above the corner lies strictly left of both
/// edges.
proof fn lemma_corner(ax: int, ay: int, cx: int, cy: int, px: int, py: int)
    requires
        ay <= 0,
        cy <= 0,
        py >= 0,
        ay * cx - ax * cy > 0,
    ensures
        ay * px - ax * py <= 0 || cx * py - cy * px <= 0,
{
    let first = ay * px - ax * py;
    let second = cx * py - cy * px;
    let corner = ay * cx - ax * cy;
    if first > 0 && second > 0 {
        let m1 = ay * px;
        let m2 = ax * py;
        let m3 = cx * py;
        let m4 = cy * px;
        let m5 = ay * cx;
        let m6 = ax * cy;
        assert((-cy) * first == cy * m2 - cy * m1) by (nonlinear_arith)
            requires
                first == m1 - m2,
        ;
        assert((-ay) * second == ay * m4 - ay * m3) by (nonlinear_arith)
            requires
                second == m3 - m4,
        ;
        assert(ay * m4 == cy * m1) by (nonlinear_arith)
            requires
                m4 == cy * px,
                m1 == ay * px,
        ;
        assert(cy * m2 == py * m6) by (nonlinear_arith)
            requires
                m2 == ax * py,
                m6 == ax * cy,
        ;
        assert(ay * m3 == py * m5) by (nonlinear_arith)
            requires
                m3 == cx * py,
                m5 == ay * cx,
        ;
        assert(py * corner == py * m5 - py * m6) by (nonlinear_arith)
            requires
                corner == m5 - m6,
        ;
        assert((-cy) * first + (-ay) * second == -(py * corner));
        assert((-cy) * first >= 0 && (-ay) * second >= 0) by (nonlinear_arith)
            requires
                -cy >= 0,
                first > 0,
                -ay >= 0,
                second > 0,
        ;
        assert(py * corner >= 0) by (nonlinear_arith)
            requires
                py >= 0,
                corner > 0,
        ;
        if py > 0 {
            assert(py * corner > 0) by (nonlinear_arith)
                requires
                    py > 0,
                    corner > 0,
            ;
        } else {
            assert(first == ay * px && second == -(cy * px)) by (nonlinear_arith)
                requires
                    first == ay * px - ax * py,
                    second == cx * py - cy * px,
                    py == 0,
            ;
            assert(false) by (nonlinear_arith)
                requires
                    ay * px > 0,
                    -(cy * px) > 0,
                    ay <= 0,
                    cy <= 0,
            ;
        }
    }
}

/// Walking back from a vertex above the height of `p` toward a vertex
/// that is not, one comes to an edge that rises past that height.
proof fn lemma_rise_before(p: Vector, polygon: Seq<Vector>, k: int, low: int) -> (u: int)
    requires
        0 <= k < polygon.len(),
        0 <= low < polygon.len(),
        polygon[k].y > p.y,
        polygon[low].y <= p.y,
    ensures
        0 <= u < polygon.len(),
        rises(p, polygon, u),
    decreases
            (if k > low {
                k - low
            } else {
                k - low + polygon.len()
            }),
{
    let before = previous(k, polygon.len() as int);
    if polygon[before].y <= p.y {
        k
    } else {
        lemma_rise_before(p, polygon, before, low)
    }
}

/// Whether `p` lies strictly above every vertex, or on or below every
/// vertex, or on or right of every vertex, or strictly left of every
/// vertex: outside the box that bounds the polygon.
pub open spec fn outside_bounds(p: Vector, polygon: Seq<Vector>) -> bool {
    ||| forall|i: int| 0 <= i < polygon.len() ==> (#[trigger] polygon[i]).y > p.y
    ||| forall|i: int| 0 <= i < polygon.len() ==> (#[trigger] polygon[i]).y <= p.y
    ||| forall|i: int| 0 <= i < polygon.len() ==> (#[trigger] polygon[i]).x <= p.x
    ||| forall|i: int| 0 <= i < polygon.len() ==> (#[trigger] polygon[i]).x > p.x
}

/// No point outside the bounding box of a polygon is inside the polygon.
pub proof fn lemma_outside_bounds_is_outside(p: Vector, polygon: Seq<Vector>)
    requires
        outside_bounds(p, polygon),
    ensures
        !inside(p, polygon),
{
    let count = polygon.len();
    if count >= 3 {
        if forall|i: int| 0 <= i < polygon.len() ==> (#[trigger] polygon[i]).x > p.x {
            lemma_left_crossings_even(p, polygon, count);
        } else {
            lemma_no_crossings(p, polygon, count);
        }
    }
}

/// From above, from below and from the right the ray meets no edge.
proof fn lemma_no_crossings(p: Vector, polygon: Seq<Vector>, n: nat)
    requires
        n <= polygon.len(),
        polygon.len() >= 1,
        (forall|i: int| 0 <= i < polygon.len() ==> (#[trigger] polygon[i]).y > p.y) || (forall|
            i: int,
        |
            0 <= i < polygon.len() ==> (#[trigger] polygon[i]).y <= p.y) || (forall|i: int|
            0 <= i < polygon.len() ==> (#[trigger] polygon[i]).x <= p.x),
    ensures
        crossings(p, polygon, n) == 0,
    decreases n,
{
    if n > 0 {
        let i = n - 1;
        lemma_no_crossings(p, polygon, i as nat);
        let a = polygon[i];
        let b = polygon[previous(i, polygon.len() as int)];
        if straddles(p, a, b) {
            lemma_right_of_edge(p, a, b);
        }
    }
}

/// A point on or right of both ends of an edge is not left of it.
proof fn lemma_right_of_edge(p: Vector, a: Vector, b: Vector)
    requires
        straddles(p, a, b),
        a.x <= p.x,
        b.x <= p.x,
    ensures
        !left_of_edge(p, a, b),
{
    let rise = b.y - a.y;
    let run = b.x - a.x;
    let across = p.x - a.x;
    let up = p.y - a.y;
    if rise > 0 {
        // a.y <= p.y < b.y
        assert(across * rise >= run * up) by (nonlinear_arith)
            requires
                0 <= up < rise,
                across >= 0,
                across >= run,
        ;
    } else {
        // b.y <= p.y < a.y
        assert(across * rise <= run * up) by (nonlinear_arith)
            requires
                rise <= up < 0,
                across >= 0,
                across >= run,
        ;
    }
}

/// A point strictly left of both ends of an edge that straddles its
/// height is left of the edge.
proof fn lemma_left_of_edge(p: Vector, a: Vector, b: Vector)
    requires
        straddles(p, a, b),
        a.x > p.x,
        b.x > p.x,
    ensures
        left_of_edge(p, a, b),
{
    let rise = b.y - a.y;
    let run = b.x - a.x;
    let across = p.x - a.x;
    let up = p.y - a.y;
    if rise > 0 {
        assert(across * rise < run * up) by (nonlinear_arith)
            requires
                0 <= up < rise,
                across < 0,
                across < run,
        ;
    } else {
        assert(across * rise > run * up) by (nonlinear_arith)
            requires
                rise <= up < 0,
                across < 0,
                across < run,
        ;
    }
}

/// From the left the ray meets every edge that straddles it, and around
/// a loop those come in pairs.
proof fn lemma_left_crossings_even(p: Vector, polygon: Seq<Vector>, n: nat)
    requires
        1 <= n <= polygon.len(),
        forall|i: int| 0 <= i < polygon.len() ==> (#[trigger] polygon[i]).x > p.x,
    ensures
        (crossings(p, polygon, n) % 2 == 1) == ((polygon[0].y > p.y) != (polygon[polygon.len()
            - 1].y > p.y)) != ((polygon[0].y > p.y) != (polygon[n - 1].y > p.y)),
    decreases n,
{
    let i = n - 1;
    let a = polygon[i];
    let b = polygon[previous(i, polygon.len() as int)];
    if straddles(p, a, b) {
        lemma_left_of_edge(p, a, b);
    }
    if n == 1 {
        assert(crossings(p, polygon, 0) == 0);
    } else {
        lemma_left_crossings_even(p, polygon, i as nat);
    }
}

} // verus!
