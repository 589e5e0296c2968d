use vstd::prelude::*;

verus! {

/// Defining points of a stroke keep both coordinates within this distance
/// of the origin.
pub const COORDINATE_LIMIT: i64 = 0x8000_0000;

/// The largest component of a displacement that can be scaled to a length.
/// The displacement between two defining points never exceeds it.
pub const OFFSET_LIMIT: i64 = 0x1_0000_0000;

/// The predicates on segments accept points whose coordinates stay within
/// this distance of the origin.
pub const PLANE_LIMIT: i64 = 0x2000_0000_0000_0000;

/// A grid point, also used as the displacement between two grid points.
/// The y axis points down, as on a screen.
#[derive(Clone, Copy, Debug, PartialEq, Eq, Structural)]
pub struct Point {
    pub x: i64,
    pub y: i64,
}

impl Point {
    /// Both coordinates lie in `[-limit, limit]`.
    pub open spec fn bounded_by(self, limit: int) -> bool {
        &&& -limit <= self.x <= limit
        &&& -limit <= self.y <= limit
    }

    /// The displacement that moves nothing.
    pub open spec fn is_zero(self) -> bool {
        self.x == 0 && self.y == 0
    }

    /// The sum, where it fits.
    pub open spec fn spec_plus(self, other: Point) -> Point {
        Point { x: (self.x + other.x) as i64, y: (self.y + other.y) as i64 }
    }

    /// The difference, where it fits.
    pub open spec fn spec_minus(self, other: Point) -> Point {
        Point { x: (self.x - other.x) as i64, y: (self.y - other.y) as i64 }
    }

    /// The opposite displacement, where it fits.
    pub open spec fn spec_negated(self) -> Point {
        Point { x: (-self.x) as i64, y: (-self.y) as i64 }
    }

    /// The squared length.
    pub open spec fn norm_sq(self) -> int {
        self.x * self.x + self.y * self.y
    }

    /// The z component of the cross product: zero exactly when the two
    /// displacements lie on one line through the origin.
    pub open spec fn cross(self, other: Point) -> int {
        self.x * other.y - self.y * other.x
    }

    /// The dot product: positive where the two displacements point to the
    /// same side.
    pub open spec fn dot(self, other: Point) -> int {
        self.x * other.x + self.y * other.y
    }

    /// The point with the given coordinates.
    pub fn new(x: i64, y: i64) -> (r: Point)
        ensures
            r == (Point { x, y }),
    {
        Point { x, y }
    }

    /// The origin, which is also the texture coordinate of every vertex.
    pub fn origin() -> (r: Point)
        ensures
            r == (Point { x: 0, y: 0 }),
    {
        Point { x: 0, y: 0 }
    }

    /// This point moved by `other`.
    #[verifier::when_used_as_spec(spec_plus)]
    pub fn plus(self, other: Point) -> (r: Point)
        requires
            i64::MIN <= self.x + other.x <= i64::MAX,
            i64::MIN <= self.y + other.y <= i64::MAX,
        ensures
            r == self.spec_plus(other),
            r.x == self.x + other.x,
            r.y == self.y + other.y,
    {
        Point { x: self.x + other.x, y: self.y + other.y }
    }

    /// The displacement from `other` to this point.
    #[verifier::when_used_as_spec(spec_minus)]
    pub fn minus(self, other: Point) -> (r: Point)
        requires
            i64::MIN <= self.x - other.x <= i64::MAX,
            i64::MIN <= self.y - other.y <= i64::MAX,
        ensures
            r == self.spec_minus(other),
            r.x == self.x - other.x,
            r.y == self.y - other.y,
    {
        Point { x: self.x - other.x, y: self.y - other.y }
    }

    /// The opposite displacement.
    #[verifier::when_used_as_spec(spec_negated)]
    pub fn negated(self) -> (r: Point)
        requires
            self.x != i64::MIN,
            self.y != i64::MIN,
        ensures
            r == self.spec_negated(),
            r.x == -self.x,
            r.y == -self.y,
    {
        Point { x: -self.x, y: -self.y }
    }
}

/// The squared distance between two points.
pub open spec fn distance_sq(a: Point, b: Point) -> int {
    (a.x - b.x) * (a.x - b.x) + (a.y - b.y) * (a.y - b.y)
}

/// Twice the signed area of the triangle `a`, `b`, `c`: zero when the three
/// points lie on one line, and of opposite sign for the two sides of the
/// line through `a` and `b`.
#[verifier::opaque]
pub open spec fn orientation(a: Point, b: Point, c: Point) -> int {
    (b.x - a.x) * (c.y - a.y) - (b.y - a.y) * (c.x - a.x)
}

/// `c` and `d` lie strictly on opposite sides of the line through `a` and `b`.
pub open spec fn strictly_apart(a: Point, b: Point, c: Point, d: Point) -> bool {
    ||| orientation(a, b, c) > 0 && orientation(a, b, d) < 0
    ||| orientation(a, b, c) < 0 && orientation(a, b, d) > 0
}

/// The segments `a`-`b` and `c`-`d` cross properly: each separates the ends
/// of the other strictly.  Segments that only touch, or that lie on one
/// line, do not cross.
pub open spec fn segments_cross(a: Point, b: Point, c: Point, d: Point) -> bool {
    strictly_apart(a, b, c, d) && strictly_apart(c, d, a, b)
}

/// The ends of the segment `a`-`b` are not strictly on one side of the
/// infinite line through `c` and `d`.
pub open spec fn segment_meets_line(a: Point, b: Point, c: Point, d: Point) -> bool {
    orientation(c, d, a) * orientation(c, d, b) <= 0
}

proof fn lemma_product_bound(a: int, b: int, m: int)
    by (nonlinear_arith)
    requires
        -m <= a <= m,
        -m <= b <= m,
    ensures
        -(m * m) <= a * b <= m * m,
{
}

/// Twice the signed area of the triangle `a`, `b`, `c`.
pub fn signed_area(a: Point, b: Point, c: Point) -> (r: i128)
    requires
        a.bounded_by(PLANE_LIMIT as int),
        b.bounded_by(PLANE_LIMIT as int),
        c.bounded_by(PLANE_LIMIT as int),
    ensures
        r == orientation(a, b, c),
{
    reveal(orientation);
    let abx: i128 = (b.x - a.x) as i128;
    let aby: i128 = (b.y - a.y) as i128;
    let acx: i128 = (c.x - a.x) as i128;
    let acy: i128 = (c.y - a.y) as i128;
    proof {
        let m: int = 0x4000_0000_0000_0000;
        lemma_product_bound(abx as int, acy as int, m);
        lemma_product_bound(aby as int, acx as int, m);
        assert(m * m == 0x1000_0000_0000_0000_0000_0000_0000_0000) by (nonlinear_arith)
            requires
                m == 0x4000_0000_0000_0000,
        ;
    }
    abx * acy - aby * acx
}

} // verus!
