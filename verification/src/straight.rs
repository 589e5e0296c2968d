use vstd::prelude::*;
use crate::direction::{
    lemma_cap_keeps_direction_only, lemma_joint_keeps_directions_only, same_direction,
};
use crate::point::{Point, COORDINATE_LIMIT};
use crate::rounded_line::{
    connecting_vertex, is_path, is_straight, scan_positions, scan_vertices, start_vertex,
    stroke_positions, stroke_vertices, RoundedLineVertex,
};

verus! {

/// `middle` lies on the segment from `before` to `after`, strictly between
/// its ends.
pub open spec fn lies_between(before: Point, middle: Point, after: Point) -> bool {
    same_direction(middle.minus(before), after.minus(middle))
}

proof fn lemma_sum_direction(ax: int, ay: int, bx: int, by: int)
    by (nonlinear_arith)
    requires
        ax * by - ay * bx == 0,
        ax * bx + ay * by > 0,
    ensures
        ax * (ay + by) - ay * (ax + bx) == 0,
        ax * (ax + bx) + ay * (ay + by) > 0,
        (-ax) * (-(ay + by)) - (-ay) * (-(ax + bx)) == 0,
        (-ax) * (-(ax + bx)) + (-ay) * (-(ay + by)) > 0,
        bx * (ay + by) - by * (ax + bx) == 0,
        bx * (ax + bx) + by * (ay + by) > 0,
        (-bx) * (-(ay + by)) - (-by) * (-(ax + bx)) == 0,
        (-bx) * (-(ax + bx)) + (-by) * (-(ay + by)) > 0,
        (-ax) * by - (-ay) * bx == 0,
        ax + bx != 0 || ay + by != 0,
{
    assert(ax * ax + ay * ay >= 0);
    assert(bx * bx + by * by >= 0);
}

/// Seen from either end of a segment, a point strictly between the ends
/// lies in the direction of the other end; seen from that point, the two
/// ends lie on one line.
pub proof fn lemma_between_directions(before: Point, middle: Point, after: Point)
    requires
        before.bounded_by(COORDINATE_LIMIT as int),
        middle.bounded_by(COORDINATE_LIMIT as int),
        after.bounded_by(COORDINATE_LIMIT as int),
        lies_between(before, middle, after),
    ensures
        before != after,
        same_direction(middle.minus(before), after.minus(before)),
        same_direction(before.minus(middle), before.minus(after)),
        same_direction(middle.minus(after), before.minus(after)),
        same_direction(after.minus(middle), after.minus(before)),
        before.minus(middle).cross(after.minus(middle)) == 0,
        is_straight(middle, before, after),
{
    lemma_sum_direction(
        middle.x - before.x,
        middle.y - before.y,
        after.x - middle.x,
        after.y - middle.y,
    );
}

proof fn lemma_scan_after(
    points: Seq<Point>,
    k: int,
    half_width: int,
    i: int,
    last: RoundedLineVertex,
)
    requires
        1 <= k,
        k + 2 <= i <= points.len() - 1,
    ensures
        scan_positions(points.remove(k), half_width, i - 1, last) == scan_positions(
            points,
            half_width,
            i,
            last,
        ),
        scan_vertices(points.remove(k), half_width, i - 1, last) == scan_vertices(
            points,
            half_width,
            i,
            last,
        ),
    decreases points.len() - i,
{
    let shorter = points.remove(k);
    assert(shorter[i - 1] == points[i]);
    assert(shorter[i - 2] == points[i - 1]);
    if i < points.len() - 1 {
        assert(shorter[i] == points[i + 1]);
        match connecting_vertex(points[i], points[i - 1], points[i + 1], half_width, last) {
            Some(vertex) => {
                lemma_scan_after(points, k, half_width, i + 1, vertex);
            },
            None => {
                lemma_scan_after(points, k, half_width, i + 1, last);
            },
        }
    }
}

proof fn lemma_scan_at(points: Seq<Point>, k: int, half_width: int, last: RoundedLineVertex)
    requires
        is_path(points),
        1 <= k < points.len() - 1,
        lies_between(points[k - 1], points[k], points[k + 1]),
    ensures
        scan_positions(points.remove(k), half_width, k, last) == scan_positions(
            points,
            half_width,
            k,
            last,
        ),
        scan_vertices(points.remove(k), half_width, k, last) == scan_vertices(
            points,
            half_width,
            k,
            last,
        ),
{
    let shorter = points.remove(k);
    lemma_between_directions(points[k - 1], points[k], points[k + 1]);
    assert(shorter[k] == points[k + 1]);
    assert(shorter[k - 1] == points[k - 1]);
    assert(connecting_vertex(points[k], points[k - 1], points[k + 1], half_width, last) is None);
    assert(scan_positions(points, half_width, k, last) == scan_positions(
        points,
        half_width,
        k + 1,
        last,
    ));
    assert(scan_vertices(points, half_width, k, last) == scan_vertices(
        points,
        half_width,
        k + 1,
        last,
    ));
    if k + 1 == points.len() - 1 {
        lemma_cap_keeps_direction_only(
            points[k + 1],
            points[k],
            points[k - 1],
            half_width,
            Some(last),
        );
    } else {
        assert(shorter[k + 1] == points[k + 2]);
        lemma_joint_keeps_directions_only(
            points[k + 1],
            points[k],
            points[k + 2],
            points[k - 1],
            points[k + 2],
            half_width,
            last,
        );
        match connecting_vertex(points[k + 1], points[k], points[k + 2], half_width, last) {
            Some(vertex) => {
                lemma_scan_after(points, k, half_width, k + 2, vertex);
            },
            None => {
                lemma_scan_after(points, k, half_width, k + 2, last);
            },
        }
    }
}

proof fn lemma_scan_before(
    points: Seq<Point>,
    k: int,
    half_width: int,
    i: int,
    last: RoundedLineVertex,
)
    requires
        is_path(points),
        1 <= i <= k < points.len() - 1,
        lies_between(points[k - 1], points[k], points[k + 1]),
    ensures
        scan_positions(points.remove(k), half_width, i, last) == scan_positions(
            points,
            half_width,
            i,
            last,
        ),
        scan_vertices(points.remove(k), half_width, i, last) == scan_vertices(
            points,
            half_width,
            i,
            last,
        ),
    decreases k - i,
{
    let shorter = points.remove(k);
    if i == k {
        lemma_scan_at(points, k, half_width, last);
    } else {
        assert(shorter[i] == points[i]);
        assert(shorter[i - 1] == points[i - 1]);
        if i + 1 == k {
            assert(shorter[i + 1] == points[k + 1]);
            lemma_between_directions(points[k - 1], points[k], points[k + 1]);
            lemma_joint_keeps_directions_only(
                points[i],
                points[i - 1],
                points[k],
                points[i - 1],
                points[k + 1],
                half_width,
                last,
            );
        } else {
            assert(shorter[i + 1] == points[i + 1]);
        }
        match connecting_vertex(points[i], points[i - 1], points[i + 1], half_width, last) {
            Some(vertex) => {
                lemma_scan_before(points, k, half_width, i + 1, vertex);
            },
            None => {
                lemma_scan_before(points, k, half_width, i + 1, last);
            },
        }
    }
}

/// A defining point that lies on the segment between its two neighbours
/// adds nothing: without it the stroke has the same processed points and
/// the same mesh, whatever its width.
pub proof fn lemma_point_between_neighbours_adds_nothing(
    points: Seq<Point>,
    k: int,
    half_width: int,
)
    requires
        is_path(points),
        1 <= k < points.len() - 1,
        lies_between(points[k - 1], points[k], points[k + 1]),
    ensures
        is_path(points.remove(k)),
        stroke_positions(points.remove(k), half_width) == stroke_positions(points, half_width),
        stroke_vertices(points.remove(k), half_width) == stroke_vertices(points, half_width),
{
    let shorter = points.remove(k);
    lemma_between_directions(points[k - 1], points[k], points[k + 1]);
    assert(shorter[0] == points[0]);
    if k == 1 {
        assert(shorter[1] == points[2]);
        lemma_cap_keeps_direction_only(points[0], points[1], points[2], half_width, None);
    } else {
        assert(shorter[1] == points[1]);
    }
    lemma_scan_before(points, k, half_width, 1, start_vertex(points, half_width));
    assert(is_path(shorter)) by {
        assert forall|i: int| 0 <= i < shorter.len() implies (#[trigger] shorter[i]).bounded_by(
            COORDINATE_LIMIT as int,
        ) by {
            if i < k {
                assert(shorter[i] == points[i]);
            } else {
                assert(shorter[i] == points[i + 1]);
            }
        }
        assert forall|i: int| 0 <= i < shorter.len() - 1 implies #[trigger] shorter[i]
            != shorter[i + 1] by {
            if i + 1 < k {
                assert(shorter[i] == points[i] && shorter[i + 1] == points[i + 1]);
            } else if i + 1 == k {
                assert(shorter[i] == points[k - 1] && shorter[i + 1] == points[k + 1]);
            } else {
                assert(shorter[i] == points[i + 1] && shorter[i + 1] == points[i + 2]);
                assert(points[i + 1] != points[i + 1 + 1]);
            }
        }
    }
}

/// Three points on one line, the second between the other two, give the
/// stroke of the two outer points: the same processed points and the same
/// mesh, whatever the width.
pub proof fn lemma_three_points_on_a_line(
    first: Point,
    middle: Point,
    last: Point,
    half_width: int,
)
    requires
        first.bounded_by(COORDINATE_LIMIT as int),
        middle.bounded_by(COORDINATE_LIMIT as int),
        last.bounded_by(COORDINATE_LIMIT as int),
        lies_between(first, middle, last),
    ensures
        stroke_positions(seq![first, middle, last], half_width) == stroke_positions(
            seq![first, last],
            half_width,
        ),
        stroke_vertices(seq![first, middle, last], half_width) == stroke_vertices(
            seq![first, last],
            half_width,
        ),
{
    let points = seq![first, middle, last];
    assert(points.remove(1) =~= seq![first, last]);
    assert(first != middle && middle != last) by {
        if first == middle {
            assert(middle.minus(first).is_zero());
        }
        if middle == last {
            assert(last.minus(middle).is_zero());
        }
    }
    lemma_point_between_neighbours_adds_nothing(points, 1, half_width);
}

} // verus!
