use vstd::prelude::*;
use crate::circle::{
    cosine, lemma_directions_on_circle, lemma_rotated_by_nothing, lemma_rounded_is_nearest,
    lemma_turn_keeps_length, rotated, rounded, sine, Sweep, CIRCLE_POINTS, SEMICIRCLE_POINTS,
    UNIT,
};
use crate::point::{distance_sq, Point, COORDINATE_LIMIT, OFFSET_LIMIT};
use crate::rounded_line::{
    bisector, connecting_vertex, is_straight, terminating_vertex, RoundedLineVertex,
    DIRECTION_LENGTH,
};
use crate::single_point::circle_positions;
use crate::stroke_laws::cap_fan;
use crate::utils::{
    cap_offset, cap_sweep, lemma_component_bounds, lemma_component_of_nothing,
    lemma_scaled_to_length, lemma_scaled_to_range, scaled_to,
};
use vstd::math::{abs, max};

verus! {

/// The larger of the sizes of the two components of a displacement.
pub open spec fn reach(v: Point) -> int {
    max(abs(v.x as int) as int, abs(v.y as int) as int)
}

proof fn lemma_size_from_square(a: int, m: int)
    by (nonlinear_arith)
    requires
        a * a <= m * m,
        0 <= m,
    ensures
        -m <= a <= m,
{
}

proof fn lemma_shifted_square(a: int, x: int, u: int, m: int)
    by (nonlinear_arith)
    requires
        -u <= 2 * (a - x) <= u,
        -m <= x <= m,
    ensures
        4 * (a * a) <= 4 * (x * x) + 4 * (m * u) + u * u,
{
    let d = 2 * (a - x);
    assert(4 * (a * a) == 4 * (x * x) + 4 * (x * d) + d * d);
    assert(x * d <= m * u);
    assert(d * d <= u * u);
}

proof fn lemma_sum_of_sizes(a: int, b: int, n: int)
    by (nonlinear_arith)
    requires
        0 <= a,
        0 <= b,
        0 <= n,
        a * a + b * b <= n * n,
    ensures
        2 * (a + b) <= 3 * n,
{
    assert((a + b) * (a + b) <= 2 * (a * a + b * b));
    assert(4 * ((a + b) * (a + b)) <= 9 * (n * n));
    if 2 * (a + b) > 3 * n {
        assert((2 * (a + b)) * (2 * (a + b)) > (3 * n) * (3 * n));
    }
}

/// How long a scaled displacement is: no longer than the length asked
/// for, and less than two units shorter.
pub proof fn lemma_scaled_to_keeps_length(v: Point, length: int)
    requires
        !v.is_zero(),
        0 <= length <= u32::MAX,
    ensures
        scaled_to(v, length).norm_sq() <= length * length,
        length >= 2 ==> (length - 2) * (length - 2) < scaled_to(v, length).norm_sq(),
{
    lemma_scaled_to_length(v, length);
    let q = scaled_to(v, length);
    let a: int = if q.x < 0 {
        -q.x
    } else {
        q.x as int
    };
    let b: int = if q.y < 0 {
        -q.y
    } else {
        q.y as int
    };
    let n = length - 2;
    assert(a * a + b * b == q.norm_sq()) by (nonlinear_arith)
        requires
            a == q.x || a == -q.x,
            b == q.y || b == -q.y,
            q.norm_sq() == q.x * q.x + q.y * q.y,
    ;
    if length >= 2 && q.norm_sq() <= n * n {
        lemma_sum_of_sizes(a, b, n);
        assert((a + 1) * (a + 1) + (b + 1) * (b + 1) == a * a + b * b + 2 * (a + b) + 2)
            by (nonlinear_arith);
        assert(n * n + 3 * n + 2 <= length * length) by (nonlinear_arith)
            requires
                n == length - 2,
                length >= 2,
        ;
    }
}

proof fn lemma_scaled_product(q: int, c: int, w: int, n: int, l: int)
    by (nonlinear_arith)
    requires
        0 <= q,
        0 < w,
        q * q * n <= l * l * (c * c) < (q + 1) * (q + 1) * n,
    ensures
        (q * w) * (q * w) * n <= (l * l * (c * c)) * (w * w),
        (l * l * (c * c)) * (w * w) < (q * w + w) * (q * w + w) * n,
{
    assert((q * w) * (q * w) * n == (q * q * n) * (w * w));
    assert((q * w + w) * (q * w + w) * n == ((q + 1) * (q + 1) * n) * (w * w));
    assert(w * w > 0);
}

proof fn lemma_square_order(a: int, b: int, n: int)
    by (nonlinear_arith)
    requires
        0 <= a,
        0 <= b,
        0 < n,
        a * a * n < b * b * n,
    ensures
        a < b,
{
}

/// Which way a scaled displacement points: the way of the displacement it
/// comes from, to within one grid step.  It lies less than one unit off
/// the line of that displacement, on the same side of the origin.
pub proof fn lemma_scaled_to_keeps_direction(v: Point, length: int)
    requires
        !v.is_zero(),
        0 <= length <= u32::MAX,
    ensures
        -reach(v) < scaled_to(v, length).cross(v) < reach(v),
        scaled_to(v, length).dot(v) >= 0,
{
    let q = scaled_to(v, length);
    let n = v.norm_sq();
    let vx = v.x as int;
    let vy = v.y as int;
    let qx = q.x as int;
    let qy = q.y as int;
    assert(n > 0 && n == vx * vx + vy * vy) by (nonlinear_arith)
        requires
            n == vx * vx + vy * vy,
            vx != 0 || vy != 0,
    ;
    lemma_scaled_to_range(v, length);
    lemma_component_bounds(vx, n, length);
    lemma_component_bounds(vy, n, length);
    let ax: int = if vx < 0 {
        -vx
    } else {
        vx
    };
    let ay: int = if vy < 0 {
        -vy
    } else {
        vy
    };
    let sx: int = if qx < 0 {
        -qx
    } else {
        qx
    };
    let sy: int = if qy < 0 {
        -qy
    } else {
        qy
    };
    assert(qx * vx == sx * ax && qy * vy == sy * ay && qx * vx >= 0 && qy * vy >= 0)
        by (nonlinear_arith)
        requires
            (vx >= 0 && qx >= 0 && sx == qx && ax == vx) || (vx <= 0 && qx <= 0 && sx == -qx && ax
                == -vx),
            (vy >= 0 && qy >= 0 && sy == qy && ay == vy) || (vy <= 0 && qy <= 0 && sy == -qy && ay
                == -vy),
    ;
    let a = sx * ay;
    let b = sy * ax;
    assert(qx * vy - qy * vx == a - b || qx * vy - qy * vx == b - a) by (nonlinear_arith)
        requires
            a == sx * ay,
            b == sy * ax,
            (vx >= 0 && qx >= 0 && sx == qx && ax == vx) || (vx <= 0 && qx <= 0 && sx == -qx && ax
                == -vx),
            (vy >= 0 && qy >= 0 && sy == qy && ay == vy) || (vy <= 0 && qy <= 0 && sy == -qy && ay
                == -vy),
    ;
    if vx == 0 {
        assert(sx == 0) by {
            lemma_component_of_nothing(n, length);
        }
        assert(a == 0 && b == 0) by (nonlinear_arith)
            requires
                a == sx * ay,
                b == sy * ax,
                sx == 0,
                ax == 0,
        ;
    } else if vy == 0 {
        assert(sy == 0) by {
            lemma_component_of_nothing(n, length);
        }
        assert(a == 0 && b == 0) by (nonlinear_arith)
            requires
                a == sx * ay,
                b == sy * ax,
                sy == 0,
                ay == 0,
        ;
    } else {
        assert(sx * sx == qx * qx && sy * sy == qy * qy && ax * ax == vx * vx && ay * ay == vy
            * vy) by (nonlinear_arith)
            requires
                sx == qx || sx == -qx,
                sy == qy || sy == -qy,
                ax == vx || ax == -vx,
                ay == vy || ay == -vy,
        ;
        lemma_scaled_product(sx, vx, ay, n, length);
        lemma_scaled_product(sy, vy, ax, n, length);
        let k = length * length * (vx * vx) * (ay * ay);
        assert(length * length * (vy * vy) * (ax * ax) == k) by (nonlinear_arith)
            requires
                k == length * length * (vx * vx) * (ay * ay),
                ax * ax == vx * vx,
                ay * ay == vy * vy,
        ;
        assert(0 <= a && 0 <= b) by (nonlinear_arith)
            requires
                a == sx * ay,
                b == sy * ax,
                0 <= sx,
                0 <= sy,
                0 <= ax,
                0 <= ay,
        ;
        lemma_square_order(a, b + ax, n);
        lemma_square_order(b, a + ay, n);
    }
}

/// Turning keeps the length of a displacement to within two units, for
/// lengths up to `UNIT`: where the displacement is at least `inner` and
/// at most `outer` long, its turned image is at least `inner - 2` and at
/// most `outer + 2` long.
pub proof fn lemma_rotated_keeps_length(
    offset: Point,
    step: int,
    sweep: Sweep,
    inner: int,
    outer: int,
)
    requires
        offset.bounded_by(OFFSET_LIMIT as int),
        2 <= inner <= UNIT,
        0 <= outer <= UNIT,
        inner * inner <= offset.norm_sq() <= outer * outer,
    ensures
        (inner - 2) * (inner - 2) <= rotated(offset, step, sweep).norm_sq() <= (outer + 2) * (
        outer + 2),
{
    let u = UNIT as int;
    let x = offset.x as int;
    let y = offset.y as int;
    let c = cosine(step);
    let s = sweep.sign() * sine(step);
    let t = c * c + s * s;
    let big_x = x * c + y * s;
    let big_y = y * c - x * s;
    let px = rounded(big_x);
    let py = rounded(big_y);
    let r2 = offset.norm_sq();
    lemma_directions_on_circle(step);
    assert(s * s == sine(step) * sine(step)) by (nonlinear_arith)
        requires
            s == sine(step) || s == -sine(step),
    ;
    lemma_turn_keeps_length(x, y, c, s);
    lemma_rounded_is_nearest(big_x);
    lemma_rounded_is_nearest(big_y);
    let a = px * u;
    let b = py * u;
    assert(big_x * big_x + big_y * big_y == r2 * t);
    assert(big_x * big_x >= 0 && big_y * big_y >= 0) by (nonlinear_arith);
    // The image is not too long.
    let m = outer * u + outer;
    assert(r2 * t <= m * m) by (nonlinear_arith)
        requires
            0 <= r2 <= outer * outer,
            0 <= t <= u * u + u,
            m == outer * u + outer,
            0 <= outer,
            0 < u,
    {
        assert(r2 * t <= (outer * outer) * (u * u + u));
        assert(m * m == (outer * outer) * (u * u) + 2 * ((outer * outer) * u) + outer * outer);
        assert((outer * outer) * (u * u + u) == (outer * outer) * (u * u) + (outer * outer) * u);
        assert((outer * outer) * u >= 0);
    }
    assert(0 <= m) by (nonlinear_arith)
        requires
            m == outer * u + outer,
            0 <= outer,
            0 < u,
    ;
    lemma_size_from_square(big_x, m);
    lemma_size_from_square(big_y, m);
    lemma_shifted_square(a, big_x, u, m);
    lemma_shifted_square(b, big_y, u, m);
    let far = outer + 2;
    assert(a * a + b * b <= (far * u) * (far * u)) by (nonlinear_arith)
        requires
            4 * (a * a) <= 4 * (big_x * big_x) + 4 * (m * u) + u * u,
            4 * (b * b) <= 4 * (big_y * big_y) + 4 * (m * u) + u * u,
            big_x * big_x + big_y * big_y <= m * m,
            m == outer * u + outer,
            0 <= outer <= u,
            far == outer + 2,
            0 <= m,
    {
        assert((m + u) * (m + u) == m * m + 2 * (m * u) + u * u);
        assert(0 <= m + u <= far * u);
        assert((m + u) * (m + u) <= (far * u) * (far * u));
    }
    assert(px * px + py * py <= far * far) by (nonlinear_arith)
        requires
            a == px * u,
            b == py * u,
            a * a + b * b <= (far * u) * (far * u),
            0 < u,
    {
        assert(a * a + b * b == (px * px + py * py) * (u * u));
        assert((far * u) * (far * u) == (far * far) * (u * u));
        assert(u * u > 0);
    }
    lemma_size_from_square_sum(px, py, far);
    // The image is not too short.
    let near = inner - 2;
    let below = near * u;
    if px * px + py * py < near * near {
        let size_a: int = if a < 0 {
            -a
        } else {
            a
        };
        let size_b: int = if b < 0 {
            -b
        } else {
            b
        };
        assert(size_a * size_a + size_b * size_b == a * a + b * b) by (nonlinear_arith)
            requires
                size_a == a || size_a == -a,
                size_b == b || size_b == -b,
        ;
        assert(a * a + b * b <= below * below) by (nonlinear_arith)
            requires
                a == px * u,
                b == py * u,
                below == near * u,
                px * px + py * py < near * near,
                0 < u,
        {
            assert(a * a + b * b == (px * px + py * py) * (u * u));
            assert(below * below == (near * near) * (u * u));
            assert(u * u > 0);
        }
        assert(0 <= below) by (nonlinear_arith)
            requires
                below == near * u,
                0 <= near,
                0 < u,
        ;
        lemma_sum_of_sizes(size_a, size_b, below);
        lemma_shifted_square(big_x, a, u, size_a);
        lemma_shifted_square(big_y, b, u, size_b);
        assert(r2 * t >= ((inner - 1) * u) * ((inner - 1) * u)) by (nonlinear_arith)
            requires
                inner * inner <= r2,
                u * u - u <= t,
                2 <= inner <= u,
        {
            assert(r2 * t >= (inner * inner) * (u * u - u));
            assert((inner * inner) * (u * u - u) == (inner * inner) * (u * u) - (inner * inner)
                * u);
            assert(((inner - 1) * u) * ((inner - 1) * u) == (inner * inner) * (u * u) - 2 * (inner
                * (u * u)) + u * u);
            assert((inner * inner) * u <= inner * (u * u));
            assert(u * u <= inner * (u * u));
        }
        assert(4 * (big_x * big_x + big_y * big_y) < 4 * (((inner - 1) * u) * ((inner - 1) * u)))
            by (nonlinear_arith)
            requires
                4 * (big_x * big_x) <= 4 * (a * a) + 4 * (size_a * u) + u * u,
                4 * (big_y * big_y) <= 4 * (b * b) + 4 * (size_b * u) + u * u,
                a * a + b * b <= below * below,
                2 * (size_a + size_b) <= 3 * below,
                below == (inner - 2) * u,
                0 <= below,
                0 < u,
        {
            assert(4 * (size_a * u) + 4 * (size_b * u) == (2 * (size_a + size_b)) * (2 * u));
            assert((2 * (size_a + size_b)) * (2 * u) <= (3 * below) * (2 * u));
            assert((inner - 1) * u == below + u);
            assert((below + u) * (below + u) == below * below + 2 * (below * u) + u * u);
            assert((3 * below) * (2 * u) == 6 * (below * u));
            assert(below * u >= 0);
        }
    }
}

proof fn lemma_size_from_square_sum(a: int, b: int, m: int)
    by (nonlinear_arith)
    requires
        a * a + b * b <= m * m,
        0 <= m,
    ensures
        -m <= a <= m,
        -m <= b <= m,
{
}

/// Caps are round.  Every rim point of the fan of a cap lies within two
/// units outside and four units inside the circle of the stroke's
/// half-width about the end of the stroke, for half-widths from 4 to
/// `UNIT`.
pub proof fn lemma_cap_is_round(point: Point, neighbour: Point, half_width: int, step: int)
    requires
        point.bounded_by(COORDINATE_LIMIT as int),
        neighbour.bounded_by(COORDINATE_LIMIT as int),
        point != neighbour,
        4 <= half_width <= UNIT,
        0 <= step <= SEMICIRCLE_POINTS,
    ensures
        (half_width - 4) * (half_width - 4) <= distance_sq(
            cap_fan(point, neighbour, half_width)[2 * step],
            point,
        ) <= (half_width + 2) * (half_width + 2),
{
    let outward = point.minus(neighbour);
    let tip = scaled_to(outward, half_width);
    let offset = cap_offset(point, neighbour, half_width);
    let sweep = cap_sweep(outward);
    lemma_scaled_to_range(outward, half_width);
    lemma_scaled_to_keeps_length(outward, half_width);
    assert(offset.norm_sq() == tip.norm_sq()) by (nonlinear_arith)
        requires
            (offset.x == tip.y && offset.y == -tip.x) || (offset.x == -tip.y && offset.y == tip.x),
            offset.norm_sq() == offset.x * offset.x + offset.y * offset.y,
            tip.norm_sq() == tip.x * tip.x + tip.y * tip.y,
    ;
    lemma_rotated_keeps_length(offset, step, sweep, half_width - 2, half_width);
    let turned = rotated(offset, step, sweep);
    lemma_size_from_square_sum(turned.x as int, turned.y as int, half_width + 2);
    let rim = cap_fan(point, neighbour, half_width)[2 * step];
    assert(rim == point.plus(turned));
    assert(distance_sq(rim, point) == turned.norm_sq());
}

/// Dots are round.  Every rim point of a dot lies within two units of the
/// circle of the dot's radius about its centre, for radii from 2 to
/// `UNIT`.
pub proof fn lemma_dot_is_round(point: Point, radius: u32, step: int)
    requires
        point.bounded_by(COORDINATE_LIMIT as int),
        2 <= radius <= UNIT,
        0 <= step <= CIRCLE_POINTS,
    ensures
        (radius - 2) * (radius - 2) <= distance_sq(circle_positions(point, radius)[2 * step], point)
            <= (radius + 2) * (radius + 2),
{
    let offset = Point { x: radius as i64, y: 0 };
    assert(offset.norm_sq() == radius * radius) by (nonlinear_arith)
        requires
            offset.norm_sq() == offset.x * offset.x + offset.y * offset.y,
            offset.x == radius,
            offset.y == 0,
    ;
    lemma_rotated_keeps_length(offset, step, Sweep::Increasing, radius as int, radius as int);
    let turned = rotated(offset, step, Sweep::Increasing);
    lemma_size_from_square_sum(turned.x as int, turned.y as int, radius + 2);
    let rim = circle_positions(point, radius)[2 * step];
    assert(rim == point.plus(turned));
    assert(distance_sq(rim, point) == turned.norm_sq());
}

/// Where the offset points of a joint lie: opposite each other about the
/// joint, on the bisector of the turn to within one grid step, and half
/// the stroke's width away to within two units.
pub proof fn lemma_joint_offsets(
    point: Point,
    from: Point,
    to: Point,
    half_width: int,
    previous: RoundedLineVertex,
)
    requires
        point.bounded_by(COORDINATE_LIMIT as int),
        from.bounded_by(COORDINATE_LIMIT as int),
        to.bounded_by(COORDINATE_LIMIT as int),
        point != from,
        point != to,
        0 <= half_width <= u32::MAX,
    ensures
        connecting_vertex(point, from, to, half_width, previous) matches Some(vertex) ==> ({
            let to_a = vertex.a.minus(point);
            let along = bisector(point, from, to);
            &&& vertex.b.minus(point) == to_a.negated()
            &&& -reach(along) < to_a.cross(along) < reach(along)
            &&& to_a.norm_sq() <= half_width * half_width
            &&& half_width >= 2 ==> (half_width - 2) * (half_width - 2) < to_a.norm_sq()
        }),
{
    if !is_straight(point, from, to) {
        let along = bisector(point, from, to);
        let acute = scaled_to(along, half_width);
        lemma_scaled_to_range(from.minus(point), DIRECTION_LENGTH as int);
        lemma_scaled_to_range(to.minus(point), DIRECTION_LENGTH as int);
        lemma_scaled_to_range(along, half_width);
        lemma_scaled_to_keeps_length(along, half_width);
        lemma_scaled_to_keeps_direction(along, half_width);
        let vertex = connecting_vertex(point, from, to, half_width, previous).unwrap();
        let to_a = vertex.a.minus(point);
        assert(to_a == acute || to_a == acute.negated());
        lemma_opposite(acute, along);
    }
}

proof fn lemma_opposite(q: Point, v: Point)
    by (nonlinear_arith)
    requires
        q.x != i64::MIN,
        q.y != i64::MIN,
    ensures
        q.negated().cross(v) == -q.cross(v),
        q.negated().dot(v) == -q.dot(v),
        q.negated().norm_sq() == q.norm_sq(),
{
}

proof fn lemma_quarter_turned(q: Point, v: Point)
    by (nonlinear_arith)
    requires
        q.x != i64::MIN,
        q.y != i64::MIN,
    ensures
        (Point { x: q.y, y: (-q.x) as i64 }).dot(v) == -q.cross(v),
        (Point { x: (-q.y) as i64, y: q.x }).dot(v) == q.cross(v),
        (Point { x: q.y, y: (-q.x) as i64 }).norm_sq() == q.norm_sq(),
        (Point { x: (-q.y) as i64, y: q.x }).norm_sq() == q.norm_sq(),
{
}

/// Where the offset points of an end of a stroke lie: opposite each other
/// about the end, on the perpendicular to the last edge to within one
/// grid step, and half the stroke's width away to within two units.
pub proof fn lemma_cap_offsets(
    point: Point,
    neighbour: Point,
    half_width: int,
    previous: Option<RoundedLineVertex>,
)
    requires
        point.bounded_by(COORDINATE_LIMIT as int),
        neighbour.bounded_by(COORDINATE_LIMIT as int),
        point != neighbour,
        0 <= half_width <= u32::MAX,
    ensures
        ({
            let vertex = terminating_vertex(point, neighbour, half_width, previous);
            let to_a = vertex.a.minus(point);
            let edge = point.minus(neighbour);
            &&& vertex.b.minus(point) == to_a.negated()
            &&& -reach(edge) < to_a.dot(edge) < reach(edge)
            &&& to_a.norm_sq() <= half_width * half_width
            &&& half_width >= 2 ==> (half_width - 2) * (half_width - 2) < to_a.norm_sq()
        }),
{
    let edge = point.minus(neighbour);
    let tip = scaled_to(edge, half_width);
    let offset = cap_offset(point, neighbour, half_width);
    lemma_scaled_to_range(edge, half_width);
    lemma_scaled_to_keeps_length(edge, half_width);
    lemma_scaled_to_keeps_direction(edge, half_width);
    lemma_quarter_turned(tip, edge);
    lemma_opposite(offset, edge);
    let vertex = terminating_vertex(point, neighbour, half_width, previous);
    let to_a = vertex.a.minus(point);
    assert(to_a == offset || to_a == offset.negated());
}

/// Dots are closed: the fan of a dot has a pair of positions for each step
/// of a full turn, and it ends on the rim where it starts, straight to the
/// right of the centre.
pub proof fn lemma_dot_is_closed(point: Point, radius: u32)
    requires
        point.bounded_by(COORDINATE_LIMIT as int),
    ensures
        circle_positions(point, radius).len() == 2 * (CIRCLE_POINTS + 1),
        circle_positions(point, radius)[0] == point.plus(Point { x: radius as i64, y: 0 }),
        circle_positions(point, radius)[2 * CIRCLE_POINTS] == circle_positions(point, radius)[0],
{
    let offset = Point { x: radius as i64, y: 0 };
    lemma_rotated_by_nothing(offset, Sweep::Increasing);
    assert(cosine(32) == cosine(0) && sine(32) == sine(0));
    assert(rotated(offset, 32, Sweep::Increasing) == rotated(offset, 0, Sweep::Increasing));
}

} // verus!
