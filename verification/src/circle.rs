use vstd::prelude::*;
use crate::point::{Point, COORDINATE_LIMIT, OFFSET_LIMIT};

verus! {

/// The number of segments in the fan of a cap, which spans half a turn.
pub const SEMICIRCLE_POINTS: usize = 16;

/// The number of segments in the fan of a single point, which spans a
/// full turn.
pub const CIRCLE_POINTS: usize = 32;

/// The fixed-point value of one: cosines and sines are held as multiples
/// of `1 / UNIT`.
pub const UNIT: i64 = 0x4000_0000;

/// The way a fan turns as its angle grows or shrinks.  Angles are measured
/// from the positive x axis toward the negative y axis, which on a screen
/// is towards the top.
#[derive(Clone, Copy, Debug, PartialEq, Eq, Structural)]
pub enum Sweep {
    Increasing,
    Decreasing,
}

impl Sweep {
    /// The sign of the change of the angle: one, or minus one.
    pub open spec fn sign(self) -> int {
        match self {
            Sweep::Increasing => 1,
            Sweep::Decreasing => -1,
        }
    }
}

/// The cosine of `step` sixteenths of a half turn, in the first quarter
/// turn, as a multiple of `1 / UNIT` rounded to the nearest.
pub open spec fn quarter_cosine(step: int) -> int {
    if step == 0 {
        1073741824
    } else if step == 1 {
        1053110176
    } else if step == 2 {
        992008094
    } else if step == 3 {
        892783698
    } else if step == 4 {
        759250125
    } else if step == 5 {
        596538995
    } else if step == 6 {
        410903207
    } else if step == 7 {
        209476638
    } else {
        0
    }
}

/// The cosine of `step` sixteenths of a half turn, as a multiple of
/// `1 / UNIT`.
pub open spec fn cosine(step: int) -> int {
    let m = step % 32;
    if m <= 8 {
        quarter_cosine(m)
    } else if m <= 16 {
        -quarter_cosine(16 - m)
    } else if m <= 24 {
        -quarter_cosine(m - 16)
    } else {
        quarter_cosine(32 - m)
    }
}

/// The sine of `step` sixteenths of a half turn, as a multiple of
/// `1 / UNIT`: the cosine a quarter turn earlier.
pub open spec fn sine(step: int) -> int {
    cosine(step - 8)
}

/// `n / UNIT` rounded to the nearest integer, halves away from zero.
pub open spec fn rounded(n: int) -> int {
    if n >= 0 {
        (n + UNIT / 2) / (UNIT as int)
    } else {
        -((-n + UNIT / 2) / (UNIT as int))
    }
}

/// The displacement `offset` turned by `step` sixteenths of a half turn in
/// the direction of `sweep`.
pub open spec fn rotated(offset: Point, step: int, sweep: Sweep) -> Point {
    let c = cosine(step);
    let s = sweep.sign() * sine(step);
    Point {
        x: rounded(offset.x * c + offset.y * s) as i64,
        y: rounded(offset.y * c - offset.x * s) as i64,
    }
}

/// The positions of a fan drawn as a strip: for each step from 0 to
/// `segments` the point on the rim, then the centre.
pub open spec fn fan(center: Point, offset: Point, sweep: Sweep, segments: int) -> Seq<Point> {
    Seq::new(
        (2 * (segments + 1)) as nat,
        |i: int|
            if i % 2 == 0 {
                center.plus(rotated(offset, i / 2, sweep))
            } else {
                center
            },
    )
}

fn quarter_cosine_of(step: usize) -> (r: i64)
    requires
        step <= 8,
    ensures
        r == quarter_cosine(step as int),
        0 <= r <= UNIT,
{
    if step == 0 {
        1073741824
    } else if step == 1 {
        1053110176
    } else if step == 2 {
        992008094
    } else if step == 3 {
        892783698
    } else if step == 4 {
        759250125
    } else if step == 5 {
        596538995
    } else if step == 6 {
        410903207
    } else if step == 7 {
        209476638
    } else {
        0
    }
}

/// The cosine of `step` sixteenths of a half turn, as a multiple of
/// `1 / UNIT`.
pub fn cosine_of(step: usize) -> (r: i64)
    requires
        step <= CIRCLE_POINTS,
    ensures
        r == cosine(step as int),
        -UNIT <= r <= UNIT,
{
    let m: usize = step % 32;
    if m <= 8 {
        quarter_cosine_of(m)
    } else if m <= 16 {
        -quarter_cosine_of(16 - m)
    } else if m <= 24 {
        -quarter_cosine_of(m - 16)
    } else {
        quarter_cosine_of(32 - m)
    }
}

/// The sine of `step` sixteenths of a half turn, as a multiple of
/// `1 / UNIT`.
pub fn sine_of(step: usize) -> (r: i64)
    requires
        step <= CIRCLE_POINTS,
    ensures
        r == sine(step as int),
        -UNIT <= r <= UNIT,
{
    let shifted: usize = (step + 24) % 32;
    assert(cosine(shifted as int) == cosine(step as int - 8));
    cosine_of(shifted)
}

proof fn lemma_term_bound(a: int, b: int)
    by (nonlinear_arith)
    requires
        -0x1_0000_0000 <= a <= 0x1_0000_0000,
        -0x4000_0000 <= b <= 0x4000_0000,
    ensures
        -0x4000_0000_0000_0000 <= a * b <= 0x4000_0000_0000_0000,
{
}

fn round_to_unit(n: i128) -> (r: i64)
    requires
        -0x8000_0000_0000_0000 <= n <= 0x8000_0000_0000_0000,
    ensures
        r == rounded(n as int),
        -0x2_0000_0001 <= r <= 0x2_0000_0001,
{
    if n >= 0 {
        let q: u128 = (n as u128 + 0x2000_0000) / 0x4000_0000;
        q as i64
    } else {
        let q: u128 = ((-n) as u128 + 0x2000_0000) / 0x4000_0000;
        -(q as i64)
    }
}

/// Turns a displacement by `step` sixteenths of a half turn in the
/// direction of `sweep`.
pub fn rotate(offset: Point, step: usize, sweep: Sweep) -> (r: Point)
    requires
        offset.bounded_by(OFFSET_LIMIT as int),
        step <= CIRCLE_POINTS,
    ensures
        r == rotated(offset, step as int, sweep),
        r.bounded_by(0x2_0000_0001),
{
    let c: i128 = cosine_of(step) as i128;
    let plain: i128 = sine_of(step) as i128;
    let s: i128 = match sweep {
        Sweep::Increasing => plain,
        Sweep::Decreasing => -plain,
    };
    let x: i128 = offset.x as i128;
    let y: i128 = offset.y as i128;
    proof {
        lemma_term_bound(x as int, c as int);
        lemma_term_bound(y as int, s as int);
        lemma_term_bound(y as int, c as int);
        lemma_term_bound(x as int, s as int);
        assert(s == sweep.sign() * sine(step as int)) by (nonlinear_arith)
            requires
                plain == sine(step as int),
                (sweep.sign() == 1 && s == plain) || (sweep.sign() == -1 && s == -plain),
        ;
    }
    Point { x: round_to_unit(x * c + y * s), y: round_to_unit(y * c - x * s) }
}

/// Appends the fan around `center` that starts at `center + offset` and
/// turns `segments` sixteenths of a half turn in the direction of `sweep`.
pub fn push_fan(
    rendered_points: &mut Vec<Point>,
    center: Point,
    offset: Point,
    sweep: Sweep,
    segments: usize,
)
    requires
        center.bounded_by(COORDINATE_LIMIT as int),
        offset.bounded_by(OFFSET_LIMIT as int),
        segments <= CIRCLE_POINTS,
    ensures
        final(rendered_points)@ == old(rendered_points)@ + fan(
            center,
            offset,
            sweep,
            segments as int,
        ),
{
    let ghost before = rendered_points@;
    let ghost whole = fan(center, offset, sweep, segments as int);
    let mut step: usize = 0;
    while step <= segments
        invariant
            center.bounded_by(COORDINATE_LIMIT as int),
            offset.bounded_by(OFFSET_LIMIT as int),
            segments <= CIRCLE_POINTS,
            step <= segments + 1,
            whole == fan(center, offset, sweep, segments as int),
            rendered_points@ == before + whole.subrange(0, 2 * step),
        decreases segments + 1 - step,
    {
        let turned: Point = rotate(offset, step, sweep);
        let rim: Point = center.plus(turned);
        let ghost so_far = rendered_points@;
        rendered_points.push(rim);
        rendered_points.push(center);
        proof {
            assert(whole[2 * step] == rim);
            assert(whole[2 * step + 1] == center);
            assert(whole.subrange(0, 2 * (step + 1)) == whole.subrange(0, 2 * step).push(rim).push(
                center,
            ));
            assert(rendered_points@ == so_far.push(rim).push(center));
            assert(so_far.push(rim).push(center) == before + whole.subrange(0, 2 * step).push(
                rim,
            ).push(center));
        }
        step = step + 1;
    }
    assert(whole.subrange(0, 2 * step) == whole);
}

/// Every direction of the table lies on the unit circle, to within one
/// part in `UNIT`.
pub proof fn lemma_directions_on_circle(step: int)
    ensures
        -UNIT <= cosine(step) * cosine(step) + sine(step) * sine(step) - UNIT * UNIT <= UNIT,
{
    let c = cosine(step);
    let s = sine(step);
    assert(-UNIT <= c * c + s * s - UNIT * UNIT <= UNIT) by (nonlinear_arith)
        requires
            (c == 1073741824 || c == -1073741824) && s == 0 || (c == 1053110176 || c
                == -1053110176) && (s == 209476638 || s == -209476638) || (c == 992008094 || c
                == -992008094) && (s == 410903207 || s == -410903207) || (c == 892783698 || c
                == -892783698) && (s == 596538995 || s == -596538995) || (c == 759250125 || c
                == -759250125) && (s == 759250125 || s == -759250125) || (c == 596538995 || c
                == -596538995) && (s == 892783698 || s == -892783698) || (c == 410903207 || c
                == -410903207) && (s == 992008094 || s == -992008094) || (c == 209476638 || c
                == -209476638) && (s == 1053110176 || s == -1053110176) || c == 0 && (s
                == 1073741824 || s == -1073741824),
    ;
}

/// Half a turn later every direction is the opposite one.
pub proof fn lemma_half_turn_is_opposite(step: int)
    ensures
        cosine(step + 16) == -cosine(step),
        sine(step + 16) == -sine(step),
{
}

/// A whole multiple of `UNIT` is rounded to that multiple.
pub proof fn lemma_rounded_multiple(n: int)
    ensures
        rounded(n * UNIT) == n,
{
    if n >= 0 {
        assert(n * UNIT >= 0) by (nonlinear_arith)
            requires
                n >= 0,
        ;
        assert((n * UNIT + UNIT / 2) / (UNIT as int) == n) by (nonlinear_arith);
    } else {
        assert(n * UNIT < 0) by (nonlinear_arith)
            requires
                n < 0,
        ;
        assert((-(n * UNIT) + UNIT / 2) / (UNIT as int) == -n) by (nonlinear_arith);
    }
}

/// Rounding is to the nearest: the rounded value times `UNIT` is within
/// half a `UNIT` of the number.
pub proof fn lemma_rounded_is_nearest(n: int)
    ensures
        -UNIT <= 2 * (rounded(n) * UNIT - n) <= UNIT,
{
    if n >= 0 {
        assert(-UNIT <= 2 * (((n + UNIT / 2) / (UNIT as int)) * UNIT - n) <= UNIT)
            by (nonlinear_arith);
    } else {
        assert(-UNIT <= 2 * ((-((-n + UNIT / 2) / (UNIT as int))) * UNIT - n) <= UNIT)
            by (nonlinear_arith);
    }
}

/// Before rounding, a turn keeps the length of a displacement, up to the
/// factor by which the direction of the table misses the unit circle.
pub proof fn lemma_turn_keeps_length(x: int, y: int, c: int, s: int)
    ensures
        (x * c + y * s) * (x * c + y * s) + (y * c - x * s) * (y * c - x * s) == (x * x + y * y)
            * (c * c + s * s),
{
    let a = x * c;
    let b = y * s;
    let d = y * c;
    let e = x * s;
    assert((a + b) * (a + b) == a * a + 2 * (a * b) + b * b) by (nonlinear_arith);
    assert((d - e) * (d - e) == d * d - 2 * (d * e) + e * e) by (nonlinear_arith);
    assert(a * b == d * e) by (nonlinear_arith)
        requires
            a == x * c,
            b == y * s,
            d == y * c,
            e == x * s,
    ;
    lemma_square_of_product(x, c);
    lemma_square_of_product(y, s);
    lemma_square_of_product(y, c);
    lemma_square_of_product(x, s);
    assert((x * x + y * y) * (c * c + s * s) == (x * x) * (c * c) + (y * y) * (s * s) + (y * y)
        * (c * c) + (x * x) * (s * s)) by (nonlinear_arith);
}

proof fn lemma_square_of_product(x: int, c: int)
    by (nonlinear_arith)
    ensures
        (x * c) * (x * c) == (x * x) * (c * c),
{
}

/// A displacement turned by no step is itself.
pub proof fn lemma_rotated_by_nothing(offset: Point, sweep: Sweep)
    ensures
        rotated(offset, 0, sweep) == offset,
{
    let x = offset.x as int;
    let y = offset.y as int;
    let t = sweep.sign() * sine(0);
    assert(t == 0) by (nonlinear_arith)
        requires
            t == sweep.sign() * 0,
    ;
    assert(y * t == 0 && x * t == 0) by (nonlinear_arith)
        requires
            t == 0,
    ;
    lemma_rounded_multiple(x);
    lemma_rounded_multiple(y);
}

/// A displacement turned by half a turn is its opposite, whichever way
/// it turns.
pub proof fn lemma_rotated_by_half_turn(offset: Point, sweep: Sweep)
    requires
        offset.x != i64::MIN,
        offset.y != i64::MIN,
    ensures
        rotated(offset, 16, sweep) == offset.negated(),
{
    let x = offset.x as int;
    let y = offset.y as int;
    let t = sweep.sign() * sine(16);
    assert(t == 0) by (nonlinear_arith)
        requires
            t == sweep.sign() * 0,
    ;
    assert(y * t == 0 && x * t == 0) by (nonlinear_arith)
        requires
            t == 0,
    ;
    assert(x * (-UNIT) == (-x) * UNIT && y * (-UNIT) == (-y) * UNIT) by (nonlinear_arith);
    lemma_rounded_multiple(-x);
    lemma_rounded_multiple(-y);
}

/// A displacement turned by a quarter turn has its coordinates exchanged,
/// one of them with the other sign.
pub proof fn lemma_rotated_by_quarter_turn(offset: Point)
    requires
        offset.x != i64::MIN,
        offset.y != i64::MIN,
    ensures
        rotated(offset, 8, Sweep::Increasing) == (Point { x: offset.y, y: (-offset.x) as i64 }),
        rotated(offset, 8, Sweep::Decreasing) == (Point { x: (-offset.y) as i64, y: offset.x }),
{
    let x = offset.x as int;
    let y = offset.y as int;
    assert(x * 0 == 0 && y * 0 == 0) by (nonlinear_arith);
    assert(x * (-UNIT) == (-x) * UNIT && y * (-UNIT) == (-y) * UNIT) by (nonlinear_arith);
    assert(Sweep::Increasing.sign() * sine(8) == UNIT);
    assert(Sweep::Decreasing.sign() * sine(8) == -UNIT);
    lemma_rounded_multiple(x);
    lemma_rounded_multiple(y);
    lemma_rounded_multiple(-x);
    lemma_rounded_multiple(-y);
}

/// A fan has a pair of positions for each step, the second of each pair
/// the centre.
pub proof fn lemma_fan_shape(center: Point, offset: Point, sweep: Sweep, segments: int)
    requires
        0 <= segments,
    ensures
        fan(center, offset, sweep, segments).len() == 2 * (segments + 1),
        forall|k: int|
            0 <= k <= segments ==> #[trigger] fan(center, offset, sweep, segments)[2 * k]
                == center.plus(rotated(offset, k, sweep)),
        forall|k: int|
            0 <= k <= segments ==> #[trigger] fan(center, offset, sweep, segments)[2 * k + 1]
                == center,
{
}

} // verus!
