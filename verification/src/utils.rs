use vstd::prelude::*;
use crate::circle::Sweep;
use crate::point::{
    orientation, segment_meets_line, segments_cross, signed_area, strictly_apart, Point,
    COORDINATE_LIMIT, OFFSET_LIMIT, PLANE_LIMIT,
};
use crate::root::{
    int_sqrt, integer_sqrt, lemma_int_sqrt_bounds, lemma_int_sqrt_grows, lemma_int_sqrt_is,
};

verus! {

fn separates(a: Point, b: Point, c: Point, d: Point) -> (r: bool)
    requires
        a.bounded_by(PLANE_LIMIT as int),
        b.bounded_by(PLANE_LIMIT as int),
        c.bounded_by(PLANE_LIMIT as int),
        d.bounded_by(PLANE_LIMIT as int),
    ensures
        r == strictly_apart(a, b, c, d),
{
    let side_c: i128 = signed_area(a, b, c);
    let side_d: i128 = signed_area(a, b, d);
    (side_c > 0 && side_d < 0) || (side_c < 0 && side_d > 0)
}

/// Whether two finite segments cross properly.  Touching and collinear
/// segments do not count.
pub fn does_segment_intersect_segment(first: (Point, Point), second: (Point, Point)) -> (r: bool)
    requires
        first.0.bounded_by(PLANE_LIMIT as int),
        first.1.bounded_by(PLANE_LIMIT as int),
        second.0.bounded_by(PLANE_LIMIT as int),
        second.1.bounded_by(PLANE_LIMIT as int),
    ensures
        r == segments_cross(first.0, first.1, second.0, second.1),
{
    separates(first.0, first.1, second.0, second.1) && separates(
        second.0,
        second.1,
        first.0,
        first.1,
    )
}

/// Whether a finite segment reaches the infinite line through two points:
/// true unless both ends of the segment lie strictly on one side of it.
pub fn does_segment_intersect_line(segment: (Point, Point), line: (Point, Point)) -> (r: bool)
    requires
        segment.0.bounded_by(PLANE_LIMIT as int),
        segment.1.bounded_by(PLANE_LIMIT as int),
        line.0.bounded_by(PLANE_LIMIT as int),
        line.1.bounded_by(PLANE_LIMIT as int),
    ensures
        r == segment_meets_line(segment.0, segment.1, line.0, line.1),
{
    let side_a: i128 = signed_area(line.0, line.1, segment.0);
    let side_b: i128 = signed_area(line.0, line.1, segment.1);
    proof {
        let p: int = orientation(line.0, line.1, segment.0);
        let q: int = orientation(line.0, line.1, segment.1);
        assert((p * q <= 0) == !((p > 0 && q > 0) || (p < 0 && q < 0))) by (nonlinear_arith);
    }
    !((side_a > 0 && side_b > 0) || (side_a < 0 && side_b < 0))
}

/// One component of a displacement after the displacement is scaled to
/// `length` and rounded toward zero: `c` is the component and `norm_sq` the
/// squared length of the displacement, so the exact value is
/// `length * c / sqrt(norm_sq)`.
pub open spec fn scaled_component(c: int, norm_sq: int, length: int) -> int {
    let magnitude = int_sqrt(((length * length * (c * c)) / norm_sq) as nat) as int;
    if c < 0 {
        -magnitude
    } else {
        magnitude
    }
}

/// The displacement `v` scaled to `length`, each component rounded toward
/// zero.
pub open spec fn scaled_to(v: Point, length: int) -> Point {
    Point {
        x: scaled_component(v.x as int, v.norm_sq(), length) as i64,
        y: scaled_component(v.y as int, v.norm_sq(), length) as i64,
    }
}

proof fn lemma_scaled_square_bound(c: int, norm_sq: int, length: int)
    by (nonlinear_arith)
    requires
        0 <= length,
        0 < norm_sq,
        c * c <= norm_sq,
    ensures
        0 <= (length * length * (c * c)) / norm_sq <= length * length,
{
    assert(length * length * (c * c) <= length * length * norm_sq);
    assert((length * length * norm_sq) / norm_sq == length * length);
}

/// A scaled component has the sign of the component it comes from and is
/// no longer than the length asked for.
pub proof fn lemma_scaled_component_range(c: int, norm_sq: int, length: int)
    requires
        0 <= length,
        0 < norm_sq,
        c * c <= norm_sq,
    ensures
        c >= 0 ==> 0 <= scaled_component(c, norm_sq, length) <= length,
        c <= 0 ==> -length <= scaled_component(c, norm_sq, length) <= 0,
{
    lemma_scaled_square_bound(c, norm_sq, length);
    let inner: nat = ((length * length * (c * c)) / norm_sq) as nat;
    let whole: nat = (length * length) as nat;
    lemma_int_sqrt_grows(inner, whole);
    assert(int_sqrt(whole) == length) by {
        assert((length + 1) * (length + 1) > length * length) by (nonlinear_arith)
            requires
                0 <= length,
        ;
        lemma_int_sqrt_is(whole, length as nat);
    }
    if c == 0 {
        assert(length * length * (c * c) == 0) by (nonlinear_arith)
            requires
                c == 0,
        ;
        assert(inner == 0);
        assert(0 * 0 <= 0 < (0 + 1) * (0 + 1)) by (nonlinear_arith);
        lemma_int_sqrt_is(0, 0);
    }
}

/// A displacement scaled to a length that fits 32 bits has components no
/// longer than that length, each of the sign of the component it comes
/// from.
pub proof fn lemma_scaled_to_range(v: Point, length: int)
    requires
        !v.is_zero(),
        0 <= length <= u32::MAX,
    ensures
        scaled_to(v, length).x == scaled_component(v.x as int, v.norm_sq(), length),
        scaled_to(v, length).y == scaled_component(v.y as int, v.norm_sq(), length),
        scaled_to(v, length).bounded_by(length),
        v.x >= 0 ==> scaled_to(v, length).x >= 0,
        v.x <= 0 ==> scaled_to(v, length).x <= 0,
        v.y >= 0 ==> scaled_to(v, length).y >= 0,
        v.y <= 0 ==> scaled_to(v, length).y <= 0,
{
    let x: int = v.x as int;
    let y: int = v.y as int;
    assert(x * x >= 0 && y * y >= 0 && x * x + y * y > 0) by (nonlinear_arith)
        requires
            x != 0 || y != 0,
    ;
    lemma_scaled_component_range(x, v.norm_sq(), length);
    lemma_scaled_component_range(y, v.norm_sq(), length);
}

proof fn lemma_floor_bounds(a: int, n: int)
    by (nonlinear_arith)
    requires
        0 <= a,
        0 < n,
    ensures
        0 <= a / n,
        (a / n) * n <= a < (a / n + 1) * n,
{
}

/// A scaled component of nothing is nothing.
pub proof fn lemma_component_of_nothing(norm_sq: int, length: int)
    requires
        0 < norm_sq,
    ensures
        scaled_component(0, norm_sq, length) == 0,
{
    assert(length * length * (0 * 0) == 0) by (nonlinear_arith);
    assert(0int / norm_sq == 0) by (nonlinear_arith)
        requires
            0 < norm_sq,
    ;
    assert(0 * 0 <= 0 < (0 + 1) * (0 + 1)) by (nonlinear_arith);
    lemma_int_sqrt_is(0, 0);
}

/// A scaled component is the exact quotient `length * c / sqrt(norm_sq)`
/// rounded toward zero: its square times `norm_sq` is at most the square
/// of `length * c`, and one unit further from zero it would be more.
pub proof fn lemma_component_bounds(c: int, norm_sq: int, length: int)
    requires
        0 <= length,
        0 < norm_sq,
    ensures
        ({
            let q = scaled_component(c, norm_sq, length);
            let size = if q < 0 {
                -q
            } else {
                q
            };
            q * q * norm_sq <= length * length * (c * c) < (size + 1) * (size + 1) * norm_sq
        }),
{
    let a = length * length * (c * c);
    assert(0 <= a) by (nonlinear_arith)
        requires
            a == length * length * (c * c),
    ;
    lemma_floor_bounds(a, norm_sq);
    let f = a / norm_sq;
    lemma_int_sqrt_bounds(f as nat);
    let r = int_sqrt(f as nat) as int;
    let q = scaled_component(c, norm_sq, length);
    assert(q * q == r * r) by (nonlinear_arith)
        requires
            q == r || q == -r,
    ;
    assert(r * r * norm_sq <= f * norm_sq) by (nonlinear_arith)
        requires
            r * r <= f,
            0 < norm_sq,
    ;
    assert((f + 1) * norm_sq <= (r + 1) * (r + 1) * norm_sq) by (nonlinear_arith)
        requires
            f + 1 <= (r + 1) * (r + 1),
            0 < norm_sq,
    ;
}

/// How long a scaled displacement is.  It is no longer than the length
/// asked for, and with each component one unit further from zero it
/// would be longer: rounding toward zero costs less than one unit on
/// each axis.
pub proof fn lemma_scaled_to_length(v: Point, length: int)
    requires
        !v.is_zero(),
        0 <= length <= u32::MAX,
    ensures
        ({
            let q = scaled_to(v, length);
            let x_size = if q.x < 0 {
                -q.x
            } else {
                q.x as int
            };
            let y_size = if q.y < 0 {
                -q.y
            } else {
                q.y as int
            };
            q.norm_sq() <= length * length < (x_size + 1) * (x_size + 1) + (y_size + 1) * (y_size
                + 1)
        }),
{
    let x = v.x as int;
    let y = v.y as int;
    let n = v.norm_sq();
    assert(n > 0 && n == x * x + y * y) by (nonlinear_arith)
        requires
            n == x * x + y * y,
            x != 0 || y != 0,
    ;
    lemma_scaled_to_range(v, length);
    lemma_component_bounds(x, n, length);
    lemma_component_bounds(y, n, length);
    let q = scaled_to(v, length);
    let qx = q.x as int;
    let qy = q.y as int;
    let sx = if qx < 0 {
        -qx
    } else {
        qx
    };
    let sy = if qy < 0 {
        -qy
    } else {
        qy
    };
    let l2 = length * length;
    assert(l2 * (x * x) + l2 * (y * y) == l2 * n) by (nonlinear_arith)
        requires
            n == x * x + y * y,
    ;
    assert((qx * qx + qy * qy) * n <= l2 * n) by (nonlinear_arith)
        requires
            qx * qx * n <= l2 * (x * x),
            qy * qy * n <= l2 * (y * y),
            l2 * (x * x) + l2 * (y * y) == l2 * n,
    ;
    assert(qx * qx + qy * qy <= l2) by (nonlinear_arith)
        requires
            (qx * qx + qy * qy) * n <= l2 * n,
            n > 0,
    ;
    assert(l2 * n < ((sx + 1) * (sx + 1) + (sy + 1) * (sy + 1)) * n) by (nonlinear_arith)
        requires
            l2 * (x * x) < (sx + 1) * (sx + 1) * n,
            l2 * (y * y) < (sy + 1) * (sy + 1) * n,
            l2 * (x * x) + l2 * (y * y) == l2 * n,
    ;
    assert(l2 < (sx + 1) * (sx + 1) + (sy + 1) * (sy + 1)) by (nonlinear_arith)
        requires
            l2 * n < ((sx + 1) * (sx + 1) + (sy + 1) * (sy + 1)) * n,
            n > 0,
    ;
}

fn magnitude(c: i64) -> (r: u128)
    requires
        -OFFSET_LIMIT <= c <= OFFSET_LIMIT,
    ensures
        r <= OFFSET_LIMIT,
        r * r == c * c,
        c >= 0 ==> r == c,
        c < 0 ==> r == -c,
{
    if c < 0 {
        assert((-c) * (-c) == c * c) by (nonlinear_arith);
        (-c) as u128
    } else {
        c as u128
    }
}

fn scale_component(c: i64, norm_sq: u128, length: u32) -> (r: i64)
    requires
        -OFFSET_LIMIT <= c <= OFFSET_LIMIT,
        0 < norm_sq,
        c * c <= norm_sq,
    ensures
        r == scaled_component(c as int, norm_sq as int, length as int),
        c >= 0 ==> 0 <= r <= length,
        c <= 0 ==> -length <= r <= 0,
{
    let size: u128 = magnitude(c);
    let wide: u128 = length as u128;
    assert(wide * wide <= 0xffff_ffff * 0xffff_ffff) by (nonlinear_arith)
        requires
            wide <= 0xffff_ffff,
    ;
    assert(size * size <= 0x1_0000_0000 * 0x1_0000_0000) by (nonlinear_arith)
        requires
            size <= 0x1_0000_0000,
    ;
    let length_sq: u128 = wide * wide;
    let size_sq: u128 = size * size;
    assert(length_sq * size_sq <= 0xffff_fffe_0000_0001 * 0x1_0000_0000_0000_0000)
        by (nonlinear_arith)
        requires
            length_sq <= 0xffff_fffe_0000_0001,
            size_sq <= 0x1_0000_0000_0000_0000,
    ;
    let root: u64 = integer_sqrt((length_sq * size_sq) / norm_sq);
    proof {
        lemma_scaled_component_range(c as int, norm_sq as int, length as int);
        assert(length_sq * size_sq == length * length * (c * c)) by (nonlinear_arith)
            requires
                length_sq == length * length,
                size_sq == c * c,
        ;
    }
    if c < 0 {
        -(root as i64)
    } else {
        root as i64
    }
}

/// Scales a displacement to the given length, rounding each component
/// toward zero.  The displacement must not be zero: it has no direction.
pub fn normalize_vector(vector: Point, length: u32) -> (r: Point)
    requires
        !vector.is_zero(),
        vector.bounded_by(OFFSET_LIMIT as int),
    ensures
        r == scaled_to(vector, length as int),
        r.bounded_by(length as int),
{
    let x_size: u128 = magnitude(vector.x);
    let y_size: u128 = magnitude(vector.y);
    assert(x_size * x_size <= 0x1_0000_0000 * 0x1_0000_0000) by (nonlinear_arith)
        requires
            x_size <= 0x1_0000_0000,
    ;
    assert(y_size * y_size <= 0x1_0000_0000 * 0x1_0000_0000) by (nonlinear_arith)
        requires
            y_size <= 0x1_0000_0000,
    ;
    assert(x_size * x_size + y_size * y_size > 0) by (nonlinear_arith)
        requires
            x_size > 0 || y_size > 0,
    ;
    let norm_sq: u128 = x_size * x_size + y_size * y_size;
    assert(x_size * x_size >= 0 && y_size * y_size >= 0) by (nonlinear_arith);
    Point {
        x: scale_component(vector.x, norm_sq, length),
        y: scale_component(vector.y, norm_sq, length),
    }
}

/// The way the fan of a cap turns, given the displacement from the
/// neighbouring point to the end of the stroke: so that the fan bulges
/// away from the stroke.
pub open spec fn cap_sweep(outward: Point) -> Sweep {
    if outward.y > 0 || (outward.y == 0 && outward.x > 0) {
        Sweep::Decreasing
    } else {
        Sweep::Increasing
    }
}

/// The displacement `tip` turned by a quarter turn against `sweep`: the
/// fan that starts there and turns with `sweep` reaches `tip` half way.
pub open spec fn perpendicular(tip: Point, sweep: Sweep) -> Point {
    match sweep {
        Sweep::Decreasing => Point { x: tip.y, y: (-tip.x) as i64 },
        Sweep::Increasing => Point { x: (-tip.y) as i64, y: tip.x },
    }
}

/// The displacement from the end of a stroke to the point where the fan of
/// its cap starts.  It is perpendicular to the last edge, as long as half
/// the stroke's width, and points to the right, or up where the edge is
/// horizontal.
pub open spec fn cap_offset(point: Point, neighbour: Point, half_width: int) -> Point {
    let outward = point.minus(neighbour);
    perpendicular(scaled_to(outward, half_width), cap_sweep(outward))
}

/// The frame of the cap at `from`, an end of a stroke whose edge there
/// leads to `to`: the displacement from `from` to the point where the fan
/// of the cap starts, which is perpendicular to the edge, and the way the
/// fan turns from there so that it bulges away from the stroke.
pub fn perpendicular_offset_and_direction(from: Point, to: Point, half_width: u32) -> (r: (
    Point,
    Sweep,
))
    requires
        from.bounded_by(COORDINATE_LIMIT as int),
        to.bounded_by(COORDINATE_LIMIT as int),
        from != to,
    ensures
        r.0 == cap_offset(from, to, half_width as int),
        r.1 == cap_sweep(from.minus(to)),
        r.0.bounded_by(half_width as int),
{
    let outward: Point = from.minus(to);
    let tip: Point = normalize_vector(outward, half_width);
    if outward.y > 0 || (outward.y == 0 && outward.x > 0) {
        (Point { x: tip.y, y: -tip.x }, Sweep::Decreasing)
    } else {
        (Point { x: -tip.y, y: tip.x }, Sweep::Increasing)
    }
}

} // verus!
