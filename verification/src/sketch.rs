use vstd::prelude::*;
use crate::point::{distance_sq, Point, COORDINATE_LIMIT};
use crate::rounded_line::is_path;
use crate::tools::{construct_drawing, is_drawing_of, DrawTool, DrawingTool};
use crate::vertex::Color;

verus! {

/// A path takes the point `at` after `points` while the pointer moves: it
/// is the first point, or it lies further than `min_distance` from the
/// last one.
pub open spec fn far_enough(points: Seq<Point>, at: Point, min_distance: u32) -> bool {
    points.len() == 0 || distance_sq(at, points[points.len() - 1]) > min_distance * min_distance
}

/// A path takes the point `at` after `points` when the pointer is
/// pressed: it is the first point, or it is not the last one again.
pub open spec fn is_new_point(points: Seq<Point>, at: Point) -> bool {
    points.len() == 0 || at != points[points.len() - 1]
}

/// The path that is being drawn: the points sampled since the pointer was
/// pressed.  Whatever the pointer does, these points can be made into a
/// drawing: all of them lie in reach and no two consecutive ones are the
/// same.
pub struct Sketch {
    defining_points: Vec<Point>,
    drawing: bool,
}

/// What a `Sketch` holds.
pub struct SketchView {
    /// The points sampled so far, oldest first.
    pub points: Seq<Point>,
    /// Whether the pointer is down.
    pub drawing: bool,
}

impl View for Sketch {
    type V = SketchView;

    closed spec fn view(&self) -> SketchView {
        SketchView { points: self.defining_points@, drawing: self.drawing }
    }
}

fn squared_distance(a: Point, b: Point) -> (r: u128)
    requires
        a.bounded_by(COORDINATE_LIMIT as int),
        b.bounded_by(COORDINATE_LIMIT as int),
    ensures
        r == distance_sq(a, b),
{
    let dx: i128 = (a.x - b.x) as i128;
    let dy: i128 = (a.y - b.y) as i128;
    assert(0 <= dx * dx <= 0x1_0000_0000 * 0x1_0000_0000) by (nonlinear_arith)
        requires
            -0x1_0000_0000 <= dx <= 0x1_0000_0000,
    ;
    assert(0 <= dy * dy <= 0x1_0000_0000 * 0x1_0000_0000) by (nonlinear_arith)
        requires
            -0x1_0000_0000 <= dy <= 0x1_0000_0000,
    ;
    (dx * dx + dy * dy) as u128
}

fn is_in_reach(at: Point) -> (r: bool)
    ensures
        r == at.bounded_by(COORDINATE_LIMIT as int),
{
    -COORDINATE_LIMIT <= at.x && at.x <= COORDINATE_LIMIT && -COORDINATE_LIMIT <= at.y && at.y
        <= COORDINATE_LIMIT
}

impl Sketch {
    #[verifier::type_invariant]
    spec fn holds_a_path(&self) -> bool {
        is_path(self.defining_points@)
    }

    fn append(&mut self, at: Point)
        requires
            at.bounded_by(COORDINATE_LIMIT as int),
            is_new_point(old(self)@.points, at),
        ensures
            final(self)@.points == old(self)@.points.push(at),
            final(self)@.drawing == old(self)@.drawing,
    {
        proof {
            use_type_invariant(&*self);
        }
        let mut points: Vec<Point> = Vec::new();
        core::mem::swap(&mut self.defining_points, &mut points);
        points.push(at);
        core::mem::swap(&mut self.defining_points, &mut points);
    }

    /// An empty path, with the pointer up.
    pub fn new() -> (r: Sketch)
        ensures
            r@.points.len() == 0,
            !r@.drawing,
    {
        Sketch { defining_points: Vec::new(), drawing: false }
    }

    /// The pointer went down at `at`.  The point is sampled unless it lies
    /// out of reach or repeats the last sample.
    pub fn pointer_pressed(&mut self, at: Point) -> (sampled: bool)
        ensures
            is_path(final(self)@.points),
            final(self)@.drawing,
            sampled <==> at.bounded_by(COORDINATE_LIMIT as int) && is_new_point(
                old(self)@.points,
                at,
            ),
            sampled ==> final(self)@.points == old(self)@.points.push(at),
            !sampled ==> final(self)@.points == old(self)@.points,
    {
        proof {
            use_type_invariant(&*self);
        }
        self.drawing = true;
        if !is_in_reach(at) {
            return false;
        }
        let len: usize = self.defining_points.len();
        if len > 0 {
            let last: Point = self.defining_points[len - 1];
            if last.x == at.x && last.y == at.y {
                return false;
            }
        }
        self.append(at);
        true
    }

    /// The pointer moved to `at` while it was down; `waited` says whether
    /// enough time has passed since the last sample.  The point is sampled
    /// if the pointer is down, enough time has passed, the point lies in
    /// reach, and it lies further than `min_distance` from the last
    /// sample.
    pub fn pointer_moved(&mut self, at: Point, waited: bool, min_distance: u32) -> (sampled: bool)
        ensures
            is_path(final(self)@.points),
            final(self)@.drawing == old(self)@.drawing,
            sampled <==> old(self)@.drawing && waited && at.bounded_by(COORDINATE_LIMIT as int)
                && far_enough(old(self)@.points, at, min_distance),
            sampled ==> final(self)@.points == old(self)@.points.push(at),
            !sampled ==> final(self)@.points == old(self)@.points,
    {
        proof {
            use_type_invariant(&*self);
        }
        if !self.drawing || !waited || !is_in_reach(at) {
            return false;
        }
        let len: usize = self.defining_points.len();
        if len > 0 {
            let last: Point = self.defining_points[len - 1];
            let wide: u128 = min_distance as u128;
            assert(wide * wide <= 0xffff_ffff * 0xffff_ffff) by (nonlinear_arith)
                requires
                    wide <= 0xffff_ffff,
            ;
            assert(last.bounded_by(COORDINATE_LIMIT as int));
            if squared_distance(at, last) <= wide * wide {
                return false;
            }
            assert(at != last) by {
                assert(wide * wide >= 0) by (nonlinear_arith);
                assert(distance_sq(last, last) == 0) by (nonlinear_arith);
            }
        }
        self.append(at);
        true
    }

    /// The pointer went up: the path is made into a drawing and cleared.
    pub fn pointer_released(&mut self, tool: DrawTool, line_weight: u32, color: Color) -> (r:
        Option<DrawingTool>)
        ensures
            final(self)@.points.len() == 0,
            !final(self)@.drawing,
            is_drawing_of(r, old(self)@.points, line_weight, color),
            r matches Some(drawing) ==> drawing.wf(),
    {
        proof {
            use_type_invariant(&*self);
        }
        let mut taken: Vec<Point> = Vec::new();
        core::mem::swap(&mut self.defining_points, &mut taken);
        self.drawing = false;
        construct_drawing(taken, tool, line_weight, color)
    }

    /// The drawing that the path would give if the pointer went up now.
    pub fn preview(&self, tool: DrawTool, line_weight: u32, color: Color) -> (r: Option<
        DrawingTool,
    >)
        ensures
            is_path(self@.points),
            is_drawing_of(r, self@.points, line_weight, color),
            r matches Some(drawing) ==> drawing.wf(),
    {
        proof {
            use_type_invariant(self);
        }
        let mut copy: Vec<Point> = Vec::new();
        let mut i: usize = 0;
        while i < self.defining_points.len()
            invariant
                i <= self.defining_points.len(),
                copy@ == self.defining_points@.subrange(0, i as int),
            decreases self.defining_points.len() - i,
        {
            copy.push(self.defining_points[i]);
            assert(copy@ == self.defining_points@.subrange(0, i + 1));
            i = i + 1;
        }
        assert(copy@ == self.defining_points@);
        construct_drawing(copy, tool, line_weight, color)
    }

    /// The points sampled so far.
    pub fn get_defining_points(&self) -> (r: &Vec<Point>)
        ensures
            r@ == self@.points,
            is_path(r@),
    {
        proof {
            use_type_invariant(self);
        }
        &self.defining_points
    }

    /// Whether the pointer is down.
    pub fn is_drawing(&self) -> (r: bool)
        ensures
            r == self@.drawing,
    {
        self.drawing
    }
}

} // verus!
