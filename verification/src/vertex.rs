use vstd::prelude::*;
use crate::point::Point;

verus! {

/// A colour with an alpha channel.
#[derive(Clone, Copy, Debug, PartialEq, Eq, Structural)]
pub struct Color {
    pub r: u8,
    pub g: u8,
    pub b: u8,
    pub a: u8,
}

impl Color {
    /// An opaque colour.
    pub fn rgb(r: u8, g: u8, b: u8) -> (c: Color)
        ensures
            c == (Color { r, g, b, a: 255 }),
    {
        Color { r, g, b, a: 255 }
    }

    /// A colour with the given opacity.
    pub fn rgba(r: u8, g: u8, b: u8, a: u8) -> (c: Color)
        ensures
            c == (Color { r, g, b, a }),
    {
        Color { r, g, b, a }
    }
}

/// One entry of a vertex buffer.
#[derive(Clone, Copy, Debug, PartialEq, Eq, Structural)]
pub struct Vertex {
    pub position: Point,
    pub color: Color,
    pub tex_coords: Point,
}

impl Vertex {
    /// The vertex with the given attributes.
    pub fn new(position: Point, color: Color, tex_coords: Point) -> (v: Vertex)
        ensures
            v == (Vertex { position, color, tex_coords }),
    {
        Vertex { position, color, tex_coords }
    }
}

/// How a vertex buffer is meant to be drawn: filled, or as the outline of
/// its triangles.
#[derive(Clone, Copy, Debug, PartialEq, Eq, Structural)]
pub enum PrimitiveMode {
    TriangleStrip,
    LineStrip,
}

impl PrimitiveMode {
    /// The other mode.
    pub open spec fn spec_toggled(self) -> PrimitiveMode {
        match self {
            PrimitiveMode::TriangleStrip => PrimitiveMode::LineStrip,
            PrimitiveMode::LineStrip => PrimitiveMode::TriangleStrip,
        }
    }

    /// The other mode.
    #[verifier::when_used_as_spec(spec_toggled)]
    pub fn toggled(self) -> (r: PrimitiveMode)
        ensures
            r == self.spec_toggled(),
    {
        match self {
            PrimitiveMode::TriangleStrip => PrimitiveMode::LineStrip,
            PrimitiveMode::LineStrip => PrimitiveMode::TriangleStrip,
        }
    }
}

/// The vertex at `position` in a buffer of one colour.
pub open spec fn decorated_vertex(position: Point, color: Color) -> Vertex {
    Vertex { position, color, tex_coords: Point { x: 0, y: 0 } }
}

/// The vertex buffer that shows `positions` in one colour.
pub open spec fn decorated(positions: Seq<Point>, color: Color) -> Seq<Vertex> {
    Seq::new(positions.len(), |i: int| decorated_vertex(positions[i], color))
}

/// The positions that a vertex buffer holds.
pub open spec fn positions_of(vertexes: Seq<Vertex>) -> Seq<Point> {
    Seq::new(vertexes.len(), |i: int| vertexes[i].position)
}

/// Replaces the content of `vertexes` by `positions` shown in `color`.
/// Nothing of the geometry is computed again.
pub fn decorate(vertexes: &mut Vec<Vertex>, positions: &Vec<Point>, color: Color)
    ensures
        final(vertexes)@ == decorated(positions@, color),
{
    let tex_coords: Point = Point::origin();
    vertexes.clear();
    let mut i: usize = 0;
    while i < positions.len()
        invariant
            i <= positions.len(),
            tex_coords == (Point { x: 0, y: 0 }),
            vertexes@ == decorated(positions@, color).subrange(0, i as int),
        decreases positions.len() - i,
    {
        let ghost so_far = vertexes@;
        vertexes.push(Vertex::new(positions[i], color, tex_coords));
        assert(vertexes@ == decorated(positions@, color).subrange(0, i + 1));
        i = i + 1;
    }
    assert(decorated(positions@, color).subrange(0, i as int) == decorated(positions@, color));
}

/// A decorated buffer holds the positions it was made from.
pub proof fn lemma_decorated_keeps_positions(positions: Seq<Point>, color: Color)
    ensures
        positions_of(decorated(positions, color)) == positions,
{
    assert(positions_of(decorated(positions, color)) =~= positions);
}

/// Decorating again in the same colour changes nothing: neither the
/// positions nor the colour and texture coordinates of any vertex.
pub proof fn lemma_decorate_is_idempotent(positions: Seq<Point>, color: Color)
    ensures
        decorated(positions_of(decorated(positions, color)), color) == decorated(positions, color),
{
    lemma_decorated_keeps_positions(positions, color);
}

/// The positions of a buffer do not depend on the colour that it shows.
pub proof fn lemma_recolor_keeps_positions(positions: Seq<Point>, first: Color, second: Color)
    ensures
        positions_of(decorated(positions, first)) == positions_of(decorated(positions, second)),
{
    lemma_decorated_keeps_positions(positions, first);
    lemma_decorated_keeps_positions(positions, second);
}

} // verus!
