use vstd::prelude::*;
use crate::point::{orientation, segments_cross, Point, COORDINATE_LIMIT};
use crate::rounded_line::{
    bisector, connecting_vertex, is_straight, terminating_vertex, RoundedLineVertex,
    DIRECTION_LENGTH,
};
use crate::utils::lemma_scaled_to_range;

verus! {

proof fn lemma_area_turned(ax: int, ay: int, bx: int, by: int, cx: int, cy: int)
    by (nonlinear_arith)
    ensures
        (cx - ax) * (by - ay) - (cy - ay) * (bx - ax) == -((bx - ax) * (cy - ay) - (by - ay) * (cx
            - ax)),
{
}

proof fn lemma_area_restarted(ax: int, ay: int, bx: int, by: int, cx: int, cy: int)
    by (nonlinear_arith)
    ensures
        (cx - bx) * (ay - by) - (cy - by) * (ax - bx) == (bx - ax) * (cy - ay) - (by - ay) * (cx
            - ax),
{
}

/// Going round a triangle the other way changes the sign of its area, and
/// starting at another corner does not change it.
pub proof fn lemma_orientation_symmetry(a: Point, b: Point, c: Point)
    ensures
        orientation(a, c, b) == -orientation(a, b, c),
        orientation(b, c, a) == orientation(a, b, c),
        orientation(c, a, b) == orientation(a, b, c),
{
    reveal(orientation);
    lemma_area_turned(a.x as int, a.y as int, b.x as int, b.y as int, c.x as int, c.y as int);
    lemma_area_restarted(a.x as int, a.y as int, b.x as int, b.y as int, c.x as int, c.y as int);
    lemma_area_restarted(b.x as int, b.y as int, c.x as int, c.y as int, a.x as int, a.y as int);
}

proof fn lemma_product_of_differences(a: int, b: int, c: int, d: int)
    by (nonlinear_arith)
    ensures
        (a - b) * (c - d) == a * c - a * d - b * c + b * d,
{
}

proof fn lemma_area_sum(
    ax: int,
    ay: int,
    bx: int,
    by: int,
    cx: int,
    cy: int,
    dx: int,
    dy: int,
)
    ensures
        ((bx - ax) * (cy - ay) - (by - ay) * (cx - ax)) + ((cx - ax) * (dy - ay) - (cy - ay) * (dx
            - ax)) == ((bx - ax) * (dy - ay) - (by - ay) * (dx - ax)) + ((cx - bx) * (dy - by) - (
        cy - by) * (dx - bx)),
{
    let px = bx - ax;
    let py = by - ay;
    let qx = cx - ax;
    let qy = cy - ay;
    let rx = dx - ax;
    let ry = dy - ay;
    lemma_product_of_differences(qx, px, ry, py);
    lemma_product_of_differences(qy, py, rx, px);
    assert(cx - bx == qx - px && dy - by == ry - py && cy - by == qy - py && dx - bx == rx - px);
    assert(px * qy == qy * px && py * qx == qx * py && px * py == py * px) by (nonlinear_arith);
}

/// The two ways to cut a quadrilateral into two triangles give the same
/// area.
pub proof fn lemma_quadrilateral_area(a: Point, b: Point, c: Point, d: Point)
    ensures
        orientation(a, b, c) + orientation(a, c, d) == orientation(a, b, d) + orientation(
            b,
            c,
            d,
        ),
{
    reveal(orientation);
    lemma_area_sum(
        a.x as int,
        a.y as int,
        b.x as int,
        b.y as int,
        c.x as int,
        c.y as int,
        d.x as int,
        d.y as int,
    );
}

/// Whether two segments cross does not depend on which is named first,
/// nor on the order of the ends of either.
pub proof fn lemma_crossing_symmetry(a: Point, b: Point, c: Point, d: Point)
    ensures
        segments_cross(a, b, c, d) == segments_cross(c, d, a, b),
        segments_cross(a, b, c, d) == segments_cross(b, a, c, d),
        segments_cross(a, b, c, d) == segments_cross(a, b, d, c),
{
    lemma_orientation_symmetry(a, b, c);
    lemma_orientation_symmetry(a, b, d);
    lemma_orientation_symmetry(c, d, a);
    lemma_orientation_symmetry(c, d, b);
    lemma_orientation_symmetry(b, a, c);
    lemma_orientation_symmetry(b, a, d);
    lemma_orientation_symmetry(d, c, a);
    lemma_orientation_symmetry(d, c, b);
}

/// A segment crosses no segment that shares an end with it, and none on
/// its own line.
pub proof fn lemma_touching_is_not_crossing(a: Point, b: Point, c: Point)
    ensures
        !segments_cross(a, b, a, c),
        !segments_cross(a, b, b, c),
{
    assert(orientation(a, b, a) == 0 && orientation(a, b, b) == 0) by (nonlinear_arith) {
        reveal(orientation);
    }
}

/// Of four points, joined two and two, at most one way of joining them
/// gives segments that cross: where `a`-`c` crosses `b`-`d`, the segment
/// `a`-`d` does not cross `b`-`c`.
pub proof fn lemma_one_pairing_crosses(a: Point, b: Point, c: Point, d: Point)
    ensures
        !(segments_cross(a, c, b, d) && segments_cross(a, d, b, c)),
{
    lemma_quadrilateral_area(a, b, c, d);
    lemma_orientation_symmetry(a, b, c);
    lemma_orientation_symmetry(a, c, d);
    lemma_orientation_symmetry(a, b, d);
    lemma_orientation_symmetry(b, c, d);
    lemma_orientation_symmetry(a, d, b);
    lemma_orientation_symmetry(a, d, c);
    lemma_orientation_symmetry(b, d, a);
    lemma_orientation_symmetry(b, d, c);
}

/// The mirror image of a point in `p` lies on the other side of every line
/// through `p`.
pub proof fn lemma_mirror_changes_side(c: Point, p: Point, a: Point, b: Point)
    by (nonlinear_arith)
    requires
        a.x + b.x == 2 * p.x,
        a.y + b.y == 2 * p.y,
    ensures
        orientation(c, p, b) == -orientation(c, p, a),
{
    reveal(orientation);
}

/// Winding at a cap: the segment from the predecessor's first offset
/// point to the cap's first and the segment from the predecessor's second
/// to the cap's second do not cross.
pub proof fn lemma_cap_keeps_sides(
    point: Point,
    neighbour: Point,
    half_width: int,
    previous: RoundedLineVertex,
)
    ensures
        ({
            let vertex = terminating_vertex(point, neighbour, half_width, Some(previous));
            !segments_cross(previous.a, vertex.a, previous.b, vertex.b)
        }),
{
    let vertex = terminating_vertex(point, neighbour, half_width, Some(previous));
    lemma_one_pairing_crosses(previous.a, previous.b, vertex.a, vertex.b);
    lemma_one_pairing_crosses(previous.a, previous.b, vertex.b, vertex.a);
}

/// Winding at a joint: the segment from the predecessor's first offset
/// point to the joint's first does not cross the path between the two.
pub proof fn lemma_joint_keeps_sides(
    point: Point,
    from: Point,
    to: Point,
    half_width: int,
    previous: RoundedLineVertex,
)
    requires
        point.bounded_by(COORDINATE_LIMIT as int),
        from.bounded_by(COORDINATE_LIMIT as int),
        to.bounded_by(COORDINATE_LIMIT as int),
        point != from,
        point != to,
        0 <= half_width <= u32::MAX,
    ensures
        connecting_vertex(point, from, to, half_width, previous) matches Some(vertex)
            ==> !segments_cross(previous.a, vertex.a, previous.point, point),
{
    if !is_straight(point, from, to) {
        lemma_scaled_to_range(from.minus(point), DIRECTION_LENGTH as int);
        lemma_scaled_to_range(to.minus(point), DIRECTION_LENGTH as int);
        lemma_scaled_to_range(bisector(point, from, to), half_width);
        let vertex = connecting_vertex(point, from, to, half_width, previous).unwrap();
        lemma_mirror_changes_side(previous.point, point, vertex.a, vertex.b);
        lemma_mirror_changes_side(previous.point, point, vertex.b, vertex.a);
    }
}

} // verus!
