use vstd::prelude::*;
use crate::circle::{fan, push_fan, Sweep, CIRCLE_POINTS};
use crate::point::{Point, COORDINATE_LIMIT};
use crate::vertex::{
    decorate, decorated, lemma_decorated_keeps_positions, positions_of, Color, Vertex,
};

verus! {

/// The positions of the dot of radius `radius` around `point`: a fan that
/// closes after a full turn.
pub open spec fn circle_positions(point: Point, radius: u32) -> Seq<Point> {
    fan(point, Point { x: radius as i64, y: 0 }, Sweep::Increasing, CIRCLE_POINTS as int)
}

/// A stroke of a single point: a filled dot.
pub struct SinglePoint {
    point: Point,
    rendered_points: Vec<Point>,
    rendered_vertexes: Vec<Vertex>,
    point_weight: u32,
    color: Color,
}

/// What a `SinglePoint` holds.
pub struct SinglePointView {
    /// The centre of the dot.
    pub point: Point,
    /// The positions of the mesh.
    pub positions: Seq<Point>,
    /// The vertex buffer.
    pub vertexes: Seq<Vertex>,
    /// The radius of the dot.
    pub point_weight: u32,
    /// The colour of the dot.
    pub color: Color,
}

impl View for SinglePoint {
    type V = SinglePointView;

    closed spec fn view(&self) -> SinglePointView {
        SinglePointView {
            point: self.point,
            positions: self.rendered_points@,
            vertexes: self.rendered_vertexes@,
            point_weight: self.point_weight,
            color: self.color,
        }
    }
}

impl SinglePointView {
    /// The mesh is the dot around the point, and the vertex buffer shows
    /// it in the dot's colour.
    pub open spec fn wf(self) -> bool {
        &&& self.positions == circle_positions(self.point, self.point_weight)
        &&& self.vertexes == decorated(self.positions, self.color)
    }

    /// The same dot in another colour.
    pub open spec fn recolored(self, color: Color) -> SinglePointView {
        SinglePointView { vertexes: decorated(self.positions, color), color, ..self }
    }
}

/// Recolouring keeps the geometry and is idempotent: the positions stay
/// as they are, also inside the vertex buffer, and a second recolouring
/// in the same colour changes nothing.
pub proof fn lemma_recolored_dot(dot: SinglePointView, color: Color)
    requires
        dot.wf(),
    ensures
        dot.recolored(color).wf(),
        dot.recolored(color).point == dot.point,
        dot.recolored(color).positions == dot.positions,
        positions_of(dot.recolored(color).vertexes) == positions_of(dot.vertexes),
        dot.recolored(color).recolored(color) == dot.recolored(color),
        dot.recolored(dot.color) == dot,
{
    lemma_decorated_keeps_positions(dot.positions, color);
    lemma_decorated_keeps_positions(dot.positions, dot.color);
}

impl SinglePoint {
    /// The dot of radius `point_weight` around the first of
    /// `defining_points`.
    pub fn new(defining_points: Vec<Point>, point_weight: u32, color: Color) -> (r: Self)
        requires
            defining_points.len() >= 1,
            defining_points[0].bounded_by(COORDINATE_LIMIT as int),
        ensures
            r@.point == defining_points[0],
            r@.point_weight == point_weight,
            r@.color == color,
            r@.wf(),
    {
        let point: Point = defining_points[0];
        let mut rendered_points: Vec<Point> = Vec::new();
        push_fan(
            &mut rendered_points,
            point,
            Point { x: point_weight as i64, y: 0 },
            Sweep::Increasing,
            CIRCLE_POINTS,
        );
        assert(rendered_points@ =~= circle_positions(point, point_weight));
        let mut rendered_vertexes: Vec<Vertex> = Vec::new();
        decorate(&mut rendered_vertexes, &rendered_points, color);
        SinglePoint { point, rendered_points, rendered_vertexes, point_weight, color }
    }

    /// Shows the dot in another colour.  The geometry is kept as it is.
    pub fn rerender_vertexes(&mut self, color: Color)
        ensures
            final(self)@ == old(self)@.recolored(color),
            old(self)@.wf() ==> final(self)@.wf(),
    {
        decorate(&mut self.rendered_vertexes, &self.rendered_points, color);
        self.color = color;
    }

    /// The vertex buffer, to be drawn as a triangle strip.
    pub fn get_rendered_vertexes(&self) -> (r: &Vec<Vertex>)
        ensures
            r@ == self@.vertexes,
    {
        &self.rendered_vertexes
    }

    /// The positions of the mesh, without colour.
    pub fn get_rendered_points(&self) -> (r: &Vec<Point>)
        ensures
            r@ == self@.positions,
    {
        &self.rendered_points
    }

    /// The centre of the dot.
    pub fn get_point(&self) -> (r: Point)
        ensures
            r == self@.point,
    {
        self.point
    }

    /// The radius of the dot.
    pub fn get_point_weight(&self) -> (r: u32)
        ensures
            r == self@.point_weight,
    {
        self.point_weight
    }

    /// The colour of the dot.
    pub fn get_color(&self) -> (r: Color)
        ensures
            r == self@.color,
    {
        self.color
    }
}

} // verus!
