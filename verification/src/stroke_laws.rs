use vstd::prelude::*;
use crate::circle::{
    fan, lemma_rotated_by_half_turn, lemma_rotated_by_nothing, lemma_rotated_by_quarter_turn,
    rotated, SEMICIRCLE_POINTS,
};
use crate::point::{segments_cross, Point, COORDINATE_LIMIT};
use crate::rounded_line::{
    bisector, connecting_vertex, is_path, is_straight, keeps_sides, scan_positions, scan_vertices,
    start_vertex, stitch_block, stitches, stroke_positions, stroke_vertices, terminating_vertex,
    RoundedLineVertex, DIRECTION_LENGTH,
};
use crate::utils::{cap_offset, cap_sweep, lemma_scaled_to_range, scaled_to};
use crate::winding::{lemma_cap_keeps_sides, lemma_joint_keeps_sides};

verus! {

/// The processed point at an end of a stroke is well formed.
pub proof fn lemma_terminating_vertex_wf(
    point: Point,
    neighbour: Point,
    half_width: int,
    previous: Option<RoundedLineVertex>,
)
    requires
        point.bounded_by(COORDINATE_LIMIT as int),
        neighbour.bounded_by(COORDINATE_LIMIT as int),
        point != neighbour,
        0 <= half_width <= u32::MAX,
    ensures
        terminating_vertex(point, neighbour, half_width, previous).wf(),
{
    lemma_scaled_to_range(point.minus(neighbour), half_width);
}

/// The processed point at a turn is well formed.
pub proof fn lemma_connecting_vertex_wf(
    point: Point,
    from: Point,
    to: Point,
    half_width: int,
    previous: RoundedLineVertex,
)
    requires
        point.bounded_by(COORDINATE_LIMIT as int),
        from.bounded_by(COORDINATE_LIMIT as int),
        to.bounded_by(COORDINATE_LIMIT as int),
        point != from,
        point != to,
        0 <= half_width <= u32::MAX,
    ensures
        connecting_vertex(point, from, to, half_width, previous) matches Some(vertex)
            ==> vertex.wf(),
{
    lemma_scaled_to_range(from.minus(point), DIRECTION_LENGTH as int);
    lemma_scaled_to_range(to.minus(point), DIRECTION_LENGTH as int);
    if !is_straight(point, from, to) {
        lemma_scaled_to_range(bisector(point, from, to), half_width);
    }
}

/// Every processed point that a scan yields is well formed, and the scan
/// adds one stitch block for each of them and one fan.
pub proof fn lemma_scan_count(
    points: Seq<Point>,
    half_width: int,
    i: int,
    last: RoundedLineVertex,
)
    requires
        is_path(points),
        1 <= i <= points.len() - 1,
        0 <= half_width <= u32::MAX,
    ensures
        scan_vertices(points, half_width, i, last).len() >= 1,
        scan_positions(points, half_width, i, last).len() == 6 * scan_vertices(
            points,
            half_width,
            i,
            last,
        ).len() + 2 * (SEMICIRCLE_POINTS + 1),
        forall|j: int|
            0 <= j < scan_vertices(points, half_width, i, last).len() ==> (#[trigger] scan_vertices(
                points,
                half_width,
                i,
                last,
            )[j]).wf(),
    decreases points.len() - i,
{
    assert(points[i] != points[i - 1]);
    if i >= points.len() - 1 {
        lemma_terminating_vertex_wf(points[i], points[i - 1], half_width, Some(last));
    } else {
        assert(points[i] != points[i + 1]);
        lemma_connecting_vertex_wf(points[i], points[i - 1], points[i + 1], half_width, last);
        match connecting_vertex(points[i], points[i - 1], points[i + 1], half_width, last) {
            Some(vertex) => {
                lemma_scan_count(points, half_width, i + 1, vertex);
            },
            None => {
                lemma_scan_count(points, half_width, i + 1, last);
            },
        }
    }
}

/// The mesh of a stroke is two fans, each of one pair of positions for
/// every step of half a turn, and one stitch block of six positions for
/// each pair of consecutive processed points.  Every processed point is
/// well formed.
pub proof fn lemma_stroke_count(points: Seq<Point>, half_width: int)
    requires
        is_path(points),
        points.len() >= 2,
        0 <= half_width <= u32::MAX,
    ensures
        stroke_vertices(points, half_width).len() >= 2,
        stroke_positions(points, half_width).len() == 2 * (2 * (SEMICIRCLE_POINTS + 1)) + 6 * (
        stroke_vertices(points, half_width).len() - 1),
        forall|j: int|
            0 <= j < stroke_vertices(points, half_width).len() ==> (#[trigger] stroke_vertices(
                points,
                half_width,
            )[j]).wf(),
{
    assert(points[0] != points[1]);
    lemma_terminating_vertex_wf(points[0], points[1], half_width, None);
    lemma_scan_count(points, half_width, 1, start_vertex(points, half_width));
}

/// The number of turns that need a joint among the defining points from
/// `i` to the last but one.
pub open spec fn joints_from(points: Seq<Point>, i: int) -> nat
    decreases points.len() - i,
{
    if i >= points.len() - 1 {
        0
    } else if is_straight(points[i], points[i - 1], points[i + 1]) {
        joints_from(points, i + 1)
    } else {
        1 + joints_from(points, i + 1)
    }
}

proof fn lemma_scan_joints(points: Seq<Point>, half_width: int, i: int, last: RoundedLineVertex)
    requires
        1 <= i <= points.len() - 1,
    ensures
        scan_vertices(points, half_width, i, last).len() == joints_from(points, i) + 1,
    decreases points.len() - i,
{
    if i < points.len() - 1 {
        match connecting_vertex(points[i], points[i - 1], points[i + 1], half_width, last) {
            Some(vertex) => {
                lemma_scan_joints(points, half_width, i + 1, vertex);
            },
            None => {
                lemma_scan_joints(points, half_width, i + 1, last);
            },
        }
    }
}

proof fn lemma_all_joints(points: Seq<Point>, i: int)
    requires
        1 <= i <= points.len() - 1,
        forall|k: int|
            1 <= k < points.len() - 1 ==> !is_straight(
                #[trigger] points[k],
                points[k - 1],
                points[k + 1],
            ),
    ensures
        joints_from(points, i) == points.len() - 1 - i,
    decreases points.len() - i,
{
    if i < points.len() - 1 {
        assert(!is_straight(points[i], points[i - 1], points[i + 1]));
        lemma_all_joints(points, i + 1);
    }
}

/// A stroke has a processed point for its start, one for its end, and one
/// for each turn that needs a joint, whatever its width.
pub proof fn lemma_stroke_vertex_count(points: Seq<Point>, half_width: int)
    requires
        points.len() >= 2,
    ensures
        stroke_vertices(points, half_width).len() == joints_from(points, 1) + 2,
{
    lemma_scan_joints(points, half_width, 1, start_vertex(points, half_width));
}

/// Where every turn needs a joint, a stroke through `n` points has `n`
/// processed points, and its mesh has two fans and `n - 1` stitch blocks.
pub proof fn lemma_stroke_count_without_straight_turns(points: Seq<Point>, half_width: int)
    requires
        is_path(points),
        points.len() >= 2,
        0 <= half_width <= u32::MAX,
        forall|k: int|
            1 <= k < points.len() - 1 ==> !is_straight(
                #[trigger] points[k],
                points[k - 1],
                points[k + 1],
            ),
    ensures
        stroke_vertices(points, half_width).len() == points.len(),
        stroke_positions(points, half_width).len() == 4 * (SEMICIRCLE_POINTS + 1) + 6 * (
        points.len() - 1),
{
    lemma_stroke_count(points, half_width);
    lemma_stroke_vertex_count(points, half_width);
    lemma_all_joints(points, 1);
}

/// The shape of a cap.  Its fan starts at one of the two offset points of
/// the end and stops at the other, and half way it reaches the tip: the
/// end of the stroke moved by half the stroke's width along the last edge,
/// away from the stroke.
pub proof fn lemma_cap_shape(
    point: Point,
    neighbour: Point,
    half_width: int,
    previous: Option<RoundedLineVertex>,
)
    requires
        point.bounded_by(COORDINATE_LIMIT as int),
        neighbour.bounded_by(COORDINATE_LIMIT as int),
        point != neighbour,
        0 <= half_width <= u32::MAX,
    ensures
        ({
            let outward = point.minus(neighbour);
            let cap = fan(
                point,
                cap_offset(point, neighbour, half_width),
                cap_sweep(outward),
                SEMICIRCLE_POINTS as int,
            );
            let vertex = terminating_vertex(point, neighbour, half_width, previous);
            &&& cap[SEMICIRCLE_POINTS as int] == point.plus(scaled_to(outward, half_width))
            &&& cap[0] == vertex.a && cap[2 * SEMICIRCLE_POINTS] == vertex.b || cap[0] == vertex.b
                && cap[2 * SEMICIRCLE_POINTS] == vertex.a
        }),
{
    let outward = point.minus(neighbour);
    let sweep = cap_sweep(outward);
    let tip = scaled_to(outward, half_width);
    let offset = cap_offset(point, neighbour, half_width);
    let cap = fan(point, offset, sweep, SEMICIRCLE_POINTS as int);
    lemma_scaled_to_range(outward, half_width);
    assert(offset.bounded_by(half_width));
    lemma_rotated_by_nothing(offset, sweep);
    lemma_rotated_by_half_turn(offset, sweep);
    lemma_rotated_by_quarter_turn(offset);
    assert(rotated(offset, 8, sweep) == tip);
    assert(cap[0] == point.plus(rotated(offset, 0, sweep)));
    assert(cap[16] == point.plus(rotated(offset, 8, sweep)));
    assert(cap[32] == point.plus(rotated(offset, 16, sweep)));
    assert(point.plus(offset.negated()) == point.minus(offset));
}

/// The fan of the cap at the end `point` of a stroke whose last edge
/// comes from `neighbour`.
pub open spec fn cap_fan(point: Point, neighbour: Point, half_width: int) -> Seq<Point> {
    fan(
        point,
        cap_offset(point, neighbour, half_width),
        cap_sweep(point.minus(neighbour)),
        SEMICIRCLE_POINTS as int,
    )
}

proof fn lemma_stitches_after(first: RoundedLineVertex, rest: Seq<RoundedLineVertex>)
    requires
        rest.len() >= 1,
    ensures
        stitches(seq![first] + rest) == stitch_block(first, rest[0].a, rest[0].b) + stitches(rest),
{
    let all = seq![first] + rest;
    assert(all.drop_first() =~= rest);
    assert(all[0] == first && all[1] == rest[0]);
}

proof fn lemma_stitches_of_one(only: RoundedLineVertex)
    ensures
        stitches(seq![only]) == Seq::<Point>::empty(),
{
}

proof fn lemma_scan_layout(points: Seq<Point>, half_width: int, i: int, last: RoundedLineVertex)
    requires
        1 <= i <= points.len() - 1,
    ensures
        scan_positions(points, half_width, i, last) == stitches(
            seq![last] + scan_vertices(points, half_width, i, last),
        ) + cap_fan(points[points.len() - 1], points[points.len() - 2], half_width),
    decreases points.len() - i,
{
    let end_fan = cap_fan(points[points.len() - 1], points[points.len() - 2], half_width);
    let found = scan_vertices(points, half_width, i, last);
    if i >= points.len() - 1 {
        let end = found[0];
        assert(found =~= seq![end]);
        lemma_stitches_after(last, found);
        lemma_stitches_of_one(end);
        let block = stitch_block(last, end.a, end.b);
        assert(block + Seq::<Point>::empty() =~= block);
    } else {
        let joint = connecting_vertex(points[i], points[i - 1], points[i + 1], half_width, last);
        match joint {
            Some(vertex) => {
                let rest = scan_vertices(points, half_width, i + 1, vertex);
                let block = stitch_block(last, vertex.a, vertex.b);
                lemma_scan_layout(points, half_width, i + 1, vertex);
                assert(found == seq![vertex] + rest);
                assert(found[0] == vertex);
                lemma_stitches_after(last, found);
                assert(block + (stitches(found) + end_fan) =~= (block + stitches(found))
                    + end_fan);
            },
            None => {
                lemma_scan_layout(points, half_width, i + 1, last);
            },
        }
    }
}

/// The mesh of a stroke, in path order: the fan of the start cap, a
/// stitch block for each pair of consecutive processed points, the fan of
/// the end cap.
pub proof fn lemma_stroke_layout(points: Seq<Point>, half_width: int)
    requires
        points.len() >= 2,
    ensures
        stroke_positions(points, half_width) == cap_fan(points[0], points[1], half_width)
            + stitches(stroke_vertices(points, half_width)) + cap_fan(
            points[points.len() - 1],
            points[points.len() - 2],
            half_width,
        ),
        stroke_positions(points, half_width).subrange(
            2 * (SEMICIRCLE_POINTS + 1),
            stroke_positions(points, half_width).len() - 2 * (SEMICIRCLE_POINTS + 1),
        ) == stitches(stroke_vertices(points, half_width)),
{
    lemma_scan_layout(points, half_width, 1, start_vertex(points, half_width));
    let first = cap_fan(points[0], points[1], half_width);
    let middle = stitches(stroke_vertices(points, half_width));
    let second = cap_fan(points[points.len() - 1], points[points.len() - 2], half_width);
    assert(stroke_positions(points, half_width) =~= first + middle + second);
    assert((first + middle + second).subrange(
        2 * (SEMICIRCLE_POINTS + 1),
        (first + middle + second).len() - 2 * (SEMICIRCLE_POINTS + 1),
    ) =~= middle);
}

proof fn lemma_scan_keeps_sides(
    points: Seq<Point>,
    half_width: int,
    i: int,
    last: RoundedLineVertex,
)
    requires
        is_path(points),
        1 <= i <= points.len() - 1,
        0 <= half_width <= u32::MAX,
    ensures
        keeps_sides(seq![last] + scan_vertices(points, half_width, i, last)),
    decreases points.len() - i,
{
    let all = seq![last] + scan_vertices(points, half_width, i, last);
    assert(points[i] != points[i - 1]);
    if i >= points.len() - 1 {
        lemma_cap_keeps_sides(points[i], points[i - 1], half_width, last);
        assert(all.len() == 2);
    } else {
        assert(points[i] != points[i + 1]);
        match connecting_vertex(points[i], points[i - 1], points[i + 1], half_width, last) {
            Some(vertex) => {
                let rest = seq![vertex] + scan_vertices(points, half_width, i + 1, vertex);
                lemma_scan_keeps_sides(points, half_width, i + 1, vertex);
                lemma_joint_keeps_sides(points[i], points[i - 1], points[i + 1], half_width, last);
                lemma_scan_joints(points, half_width, i + 1, vertex);
                assert(all =~= seq![last] + rest);
                assert(rest.len() >= 2);
                assert forall|j: int| 0 <= j < all.len() - 2 implies !segments_cross(
                    (#[trigger] all[j]).a,
                    all[j + 1].a,
                    all[j].point,
                    all[j + 1].point,
                ) by {
                    if j > 0 {
                        assert(all[j] == rest[j - 1]);
                        assert(all[j + 1] == rest[j - 1 + 1]);
                    }
                }
                assert(all[all.len() - 2] == rest[rest.len() - 2]);
                assert(all[all.len() - 1] == rest[rest.len() - 1]);
            },
            None => {
                lemma_scan_keeps_sides(points, half_width, i + 1, last);
            },
        }
    }
}

/// In every stroke the offset points keep to their sides of the path from
/// one processed point to the next.
pub proof fn lemma_stroke_keeps_sides(points: Seq<Point>, half_width: int)
    requires
        is_path(points),
        points.len() >= 2,
        0 <= half_width <= u32::MAX,
    ensures
        keeps_sides(stroke_vertices(points, half_width)),
{
    lemma_scan_keeps_sides(points, half_width, 1, start_vertex(points, half_width));
}

} // verus!
