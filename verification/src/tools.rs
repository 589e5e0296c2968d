use vstd::prelude::*;
use crate::circle::CIRCLE_POINTS;
use crate::point::Point;
use crate::rounded_line::{is_path, stroke_positions, stroke_vertices, RoundedLine};
use crate::single_point::{circle_positions, SinglePoint};
use crate::vertex::{decorated, Color, Vertex};

verus! {

/// The tools a stroke can be drawn with.
#[derive(Clone, Copy, Debug, PartialEq, Eq, Structural)]
pub enum DrawTool {
    Pen,
}

/// A finished drawing: the mesh of a stroke or of a single point.
pub enum DrawingTool {
    Line(RoundedLine),
    Dot(SinglePoint),
}

impl DrawingTool {
    /// The positions of the mesh.
    pub open spec fn positions(&self) -> Seq<Point> {
        match self {
            DrawingTool::Line(line) => line@.positions,
            DrawingTool::Dot(dot) => dot@.positions,
        }
    }

    /// The vertex buffer.
    pub open spec fn vertexes(&self) -> Seq<Vertex> {
        match self {
            DrawingTool::Line(line) => line@.vertexes,
            DrawingTool::Dot(dot) => dot@.vertexes,
        }
    }

    /// The colour of the drawing.
    pub open spec fn color(&self) -> Color {
        match self {
            DrawingTool::Line(line) => line@.color,
            DrawingTool::Dot(dot) => dot@.color,
        }
    }

    /// Half the width of the stroke, or the radius of the dot.
    pub open spec fn weight(&self) -> u32 {
        match self {
            DrawingTool::Line(line) => line@.line_weight,
            DrawingTool::Dot(dot) => dot@.point_weight,
        }
    }

    /// The stroke or the dot is well formed.
    pub open spec fn wf(&self) -> bool {
        match self {
            DrawingTool::Line(line) => line@.wf(),
            DrawingTool::Dot(dot) => dot@.wf(),
        }
    }

    /// The same drawing in another colour.
    pub open spec fn is_recolored(&self, before: &DrawingTool, color: Color) -> bool {
        match (before, self) {
            (DrawingTool::Line(old_line), DrawingTool::Line(line)) => line@ == old_line@.recolored(
                color,
            ),
            (DrawingTool::Dot(old_dot), DrawingTool::Dot(dot)) => dot@ == old_dot@.recolored(color),
            _ => false,
        }
    }

    /// Shows the drawing in another colour.  The geometry is kept as it is.
    pub fn rerender_vertexes(&mut self, color: Color)
        ensures
            final(self).is_recolored(old(self), color),
            final(self).positions() == old(self).positions(),
            final(self).vertexes() == decorated(old(self).positions(), color),
            final(self).color() == color,
            final(self).weight() == old(self).weight(),
            old(self).wf() ==> final(self).wf(),
    {
        match self {
            DrawingTool::Line(line) => line.rerender_vertexes(color),
            DrawingTool::Dot(dot) => dot.rerender_vertexes(color),
        }
    }

    /// The vertex buffer, to be drawn as a triangle strip.
    pub fn get_rendered_vertexes(&self) -> (r: &Vec<Vertex>)
        ensures
            r@ == self.vertexes(),
    {
        match self {
            DrawingTool::Line(line) => line.get_rendered_vertexes(),
            DrawingTool::Dot(dot) => dot.get_rendered_vertexes(),
        }
    }
}

/// The drawing that `construct_drawing` makes of a path: none of no
/// point, a dot of one point, a stroke of more.
pub open spec fn is_drawing_of(
    drawing: Option<DrawingTool>,
    points: Seq<Point>,
    line_weight: u32,
    color: Color,
) -> bool {
    if points.len() == 0 {
        drawing is None
    } else if points.len() == 1 {
        &&& drawing matches Some(DrawingTool::Dot(dot))
        &&& dot@.point == points[0]
        &&& dot@.point_weight == line_weight
        &&& dot@.color == color
        &&& dot@.positions == circle_positions(points[0], line_weight)
        &&& dot@.vertexes == decorated(dot@.positions, color)
    } else {
        &&& drawing matches Some(DrawingTool::Line(line))
        &&& line@.defining_points == stroke_vertices(points, line_weight as int)
        &&& line@.positions == stroke_positions(points, line_weight as int)
        &&& line@.vertexes == decorated(line@.positions, color)
        &&& line@.line_weight == line_weight
        &&& line@.color == color
    }
}

/// Makes the drawing of a path: nothing of no point, a dot of one point
/// and a stroke of two or more.
pub fn construct_drawing(
    defining_points: Vec<Point>,
    tool: DrawTool,
    line_weight: u32,
    color: Color,
) -> (r: Option<DrawingTool>)
    requires
        is_path(defining_points@),
    ensures
        is_drawing_of(r, defining_points@, line_weight, color),
        r matches Some(drawing) ==> drawing.wf(),
        defining_points.len() == 1 ==> r.unwrap().positions().len() == 2 * (CIRCLE_POINTS + 1),
{
    let defining_points_len: usize = defining_points.len();
    if defining_points_len == 0 {
        return None;
    }
    match tool {
        DrawTool::Pen => {
            if defining_points_len == 1 {
                Some(DrawingTool::Dot(SinglePoint::new(defining_points, line_weight, color)))
            } else {
                match RoundedLine::new(defining_points, line_weight, color) {
                    Some(line) => Some(DrawingTool::Line(line)),
                    None => None,
                }
            }
        },
    }
}

} // verus!
