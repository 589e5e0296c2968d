use vstd::prelude::*;
use crate::point::Point;
use crate::rounded_line::{
    bisector, connecting_positions, connecting_vertex, is_straight, terminating_positions,
    terminating_vertex, RoundedLineVertex, DIRECTION_LENGTH,
};
use crate::utils::{cap_offset, cap_sweep, scaled_component, scaled_to};

verus! {

/// Two displacements point the same way: neither is zero, they lie on one
/// line through the origin, and on the same side of it.
pub open spec fn same_direction(u: Point, v: Point) -> bool {
    &&& !u.is_zero()
    &&& !v.is_zero()
    &&& u.cross(v) == 0
    &&& u.dot(v) > 0
}

proof fn lemma_parallel_component(ux: int, uy: int, vx: int, vy: int)
    by (nonlinear_arith)
    requires
        ux * vy == uy * vx,
    ensures
        vx * (ux * ux + uy * uy) == ux * (ux * vx + uy * vy),
{
    assert(uy * (uy * vx) == uy * (ux * vy));
    assert(vx * (uy * uy) == ux * (uy * vy));
    assert(vx * (ux * ux) == ux * (ux * vx));
}

proof fn lemma_parallel_components(ux: int, uy: int, vx: int, vy: int)
    requires
        ux * vy - uy * vx == 0,
    ensures
        vx * (ux * ux + uy * uy) == ux * (ux * vx + uy * vy),
        vy * (ux * ux + uy * uy) == uy * (ux * vx + uy * vy),
        ux * (vx * vx + vy * vy) == vx * (ux * vx + uy * vy),
        uy * (vx * vx + vy * vy) == vy * (ux * vx + uy * vy),
{
    lemma_parallel_component(ux, uy, vx, vy);
    assert(uy * vx == ux * vy);
    lemma_parallel_component(uy, ux, vy, vx);
    assert(vx * uy == vy * ux) by (nonlinear_arith)
        requires
            ux * vy == uy * vx,
    ;
    lemma_parallel_component(vx, vy, ux, uy);
    assert(vy * ux == vx * uy) by (nonlinear_arith)
        requires
            ux * vy == uy * vx,
    ;
    lemma_parallel_component(vy, vx, uy, ux);
    assert(ux * vx + uy * vy == vx * ux + vy * uy && uy * vy + ux * vx == ux * vx + uy * vy && vy
        * uy + vx * ux == vx * ux + vy * uy && uy * uy + ux * ux == ux * ux + uy * uy && vy * vy
        + vx * vx == vx * vx + vy * vy) by (nonlinear_arith);
}

proof fn lemma_same_sign(a: int, m: int, b: int, d: int)
    by (nonlinear_arith)
    requires
        a * m == b * d,
        m > 0,
        d > 0,
    ensures
        a > 0 <==> b > 0,
        a < 0 <==> b < 0,
{
}

proof fn lemma_square_ratio(a: int, m: int, b: int, n: int, d: int, k: int)
    by (nonlinear_arith)
    requires
        b * m == a * d,
        a * n == b * d,
    ensures
        (k * k * (a * a)) * n == (k * k * (b * b)) * m,
{
    assert(a * (a * n) == a * (b * d));
    assert(b * (b * m) == b * (a * d));
    assert((a * a) * n == (b * b) * m);
}

proof fn lemma_cross_scaled(x: int, y: int, k: int, wx: int, wy: int)
    by (nonlinear_arith)
    ensures
        (x * wy - y * wx) * k == (x * k) * wy - (y * k) * wx,
{
}

/// Two fractions with positive denominators that are equal as fractions
/// are equal rounded down.
pub proof fn lemma_equal_fractions(a: int, b: int, c: int, d: int)
    requires
        a * d == c * b,
        b > 0,
        d > 0,
    ensures
        a / b == c / d,
{
    let q = a / b;
    let r = a % b;
    assert(a == q * b + r && 0 <= r < b) by (nonlinear_arith)
        requires
            b > 0,
            q == a / b,
            r == a % b,
    ;
    assert(0 <= c - q * d < d) by (nonlinear_arith)
        requires
            a * d == c * b,
            a == q * b + r,
            0 <= r < b,
            b > 0,
            d > 0,
    {
        assert(b * (c - q * d) == r * d);
        assert(0 <= r * d < b * d);
    }
    assert(c / d == q) by (nonlinear_arith)
        requires
            0 <= c - q * d < d,
            d > 0,
    ;
}

/// Scaling to a length keeps only the direction: two displacements that
/// point the same way are scaled to the same displacement.
pub proof fn lemma_scaling_keeps_direction_only(u: Point, v: Point, length: int)
    requires
        same_direction(u, v),
    ensures
        scaled_to(u, length) == scaled_to(v, length),
{
    let ux = u.x as int;
    let uy = u.y as int;
    let vx = v.x as int;
    let vy = v.y as int;
    let m = u.norm_sq();
    let n = v.norm_sq();
    let d = u.dot(v);
    lemma_parallel_components(ux, uy, vx, vy);
    assert(m > 0 && n > 0) by (nonlinear_arith)
        requires
            m == ux * ux + uy * uy,
            n == vx * vx + vy * vy,
            ux != 0 || uy != 0,
            vx != 0 || vy != 0,
    ;
    lemma_same_sign(vx, m, ux, d);
    lemma_same_sign(vy, m, uy, d);
    lemma_square_ratio(ux, m, vx, n, d, length);
    lemma_square_ratio(uy, m, vy, n, d, length);
    lemma_equal_fractions(length * length * (ux * ux), m, length * length * (vx * vx), n);
    lemma_equal_fractions(length * length * (uy * uy), m, length * length * (vy * vy), n);
    assert(scaled_component(ux, m, length) == scaled_component(vx, n, length));
    assert(scaled_component(uy, m, length) == scaled_component(vy, n, length));
}

/// Two displacements that point the same way have components of the same
/// signs.
pub proof fn lemma_same_direction_signs(u: Point, v: Point)
    requires
        same_direction(u, v),
    ensures
        u.x > 0 <==> v.x > 0,
        u.x < 0 <==> v.x < 0,
        u.y > 0 <==> v.y > 0,
        u.y < 0 <==> v.y < 0,
{
    let ux = u.x as int;
    let uy = u.y as int;
    let vx = v.x as int;
    let vy = v.y as int;
    lemma_parallel_components(ux, uy, vx, vy);
    assert(u.norm_sq() > 0) by (nonlinear_arith)
        requires
            u.norm_sq() == ux * ux + uy * uy,
            ux != 0 || uy != 0,
    ;
    lemma_same_sign(vx, u.norm_sq(), ux, u.dot(v));
    lemma_same_sign(vy, u.norm_sq(), uy, u.dot(v));
}

/// Whether a third displacement lies on the line of a displacement
/// depends on the direction of the latter only.
pub proof fn lemma_cross_keeps_direction_only(u: Point, v: Point, w: Point)
    requires
        same_direction(u, v),
    ensures
        u.cross(w) == 0 <==> v.cross(w) == 0,
        w.cross(u) == 0 <==> w.cross(v) == 0,
{
    let ux = u.x as int;
    let uy = u.y as int;
    let vx = v.x as int;
    let vy = v.y as int;
    let wx = w.x as int;
    let wy = w.y as int;
    let m = u.norm_sq();
    let d = u.dot(v);
    lemma_parallel_components(ux, uy, vx, vy);
    assert(m > 0) by (nonlinear_arith)
        requires
            m == ux * ux + uy * uy,
            ux != 0 || uy != 0,
    ;
    lemma_cross_scaled(vx, vy, m, wx, wy);
    lemma_cross_scaled(ux, uy, d, wx, wy);
    assert((vx * wy - vy * wx == 0) <==> (ux * wy - uy * wx == 0)) by (nonlinear_arith)
        requires
            (vx * wy - vy * wx) * m == (ux * wy - uy * wx) * d,
            m > 0,
            d > 0,
    ;
    assert(w.cross(u) == -u.cross(w) && w.cross(v) == -v.cross(w)) by (nonlinear_arith)
        requires
            w.cross(u) == wx * uy - wy * ux,
            u.cross(w) == ux * wy - uy * wx,
            w.cross(v) == wx * vy - wy * vx,
            v.cross(w) == vx * wy - vy * wx,
    ;
}

/// A cap depends on the direction of its edge only, not on the length of
/// the edge: with another neighbour in the same direction the end of the
/// stroke is processed to the same point and adds the same positions.
pub proof fn lemma_cap_keeps_direction_only(
    point: Point,
    neighbour: Point,
    other: Point,
    half_width: int,
    previous: Option<RoundedLineVertex>,
)
    requires
        same_direction(point.minus(neighbour), point.minus(other)),
    ensures
        cap_offset(point, neighbour, half_width) == cap_offset(point, other, half_width),
        cap_sweep(point.minus(neighbour)) == cap_sweep(point.minus(other)),
        terminating_vertex(point, neighbour, half_width, previous) == terminating_vertex(
            point,
            other,
            half_width,
            previous,
        ),
        terminating_positions(point, neighbour, half_width, previous) == terminating_positions(
            point,
            other,
            half_width,
            previous,
        ),
{
    lemma_scaling_keeps_direction_only(point.minus(neighbour), point.minus(other), half_width);
    lemma_same_direction_signs(point.minus(neighbour), point.minus(other));
}

/// A joint depends on the directions of its two edges only, not on their
/// lengths.
pub proof fn lemma_joint_keeps_directions_only(
    point: Point,
    from: Point,
    to: Point,
    other_from: Point,
    other_to: Point,
    half_width: int,
    previous: RoundedLineVertex,
)
    requires
        from == other_from || same_direction(from.minus(point), other_from.minus(point)),
        to == other_to || same_direction(to.minus(point), other_to.minus(point)),
    ensures
        bisector(point, from, to) == bisector(point, other_from, other_to),
        is_straight(point, from, to) == is_straight(point, other_from, other_to),
        connecting_vertex(point, from, to, half_width, previous) == connecting_vertex(
            point,
            other_from,
            other_to,
            half_width,
            previous,
        ),
        connecting_positions(point, from, to, half_width, previous) == connecting_positions(
            point,
            other_from,
            other_to,
            half_width,
            previous,
        ),
{
    if from != other_from {
        lemma_scaling_keeps_direction_only(
            from.minus(point),
            other_from.minus(point),
            DIRECTION_LENGTH as int,
        );
        lemma_cross_keeps_direction_only(
            from.minus(point),
            other_from.minus(point),
            to.minus(point),
        );
    }
    if to != other_to {
        lemma_scaling_keeps_direction_only(
            to.minus(point),
            other_to.minus(point),
            DIRECTION_LENGTH as int,
        );
        lemma_cross_keeps_direction_only(
            to.minus(point),
            other_to.minus(point),
            other_from.minus(point),
        );
    }
}

} // verus!
