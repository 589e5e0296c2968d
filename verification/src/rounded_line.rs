use vstd::prelude::*;
use crate::circle::{fan, push_fan, SEMICIRCLE_POINTS};
use crate::point::{segments_cross, Point, COORDINATE_LIMIT, OFFSET_LIMIT};
use crate::stroke_laws::{lemma_stroke_count, lemma_stroke_keeps_sides, lemma_stroke_layout};
use crate::utils::{
    cap_offset, cap_sweep, does_segment_intersect_segment, normalize_vector,
    perpendicular_offset_and_direction, scaled_to,
};
use crate::vertex::{
    decorate, decorated, lemma_decorated_keeps_positions, positions_of, Color, Vertex,
};

verus! {

/// The length to which the two edge directions at a joint are scaled
/// before they are added: the bisector is held to one part in `2^30`.
pub const DIRECTION_LENGTH: u32 = 0x4000_0000;

/// What the tessellation keeps of a defining point once it is processed:
/// where it is, and the two offset points at half the stroke's width that
/// straddle the path there.  At an end of the stroke they are the ends of
/// the cap's straight edge, at a turn they lie on the bisector.
#[derive(Clone, Copy, Debug, PartialEq, Eq, Structural)]
pub struct RoundedLineVertex {
    pub point: Point,
    pub a: Point,
    pub b: Point,
}

/// The six positions that join one processed point to the next.
pub open spec fn stitch_block(previous: RoundedLineVertex, a: Point, b: Point) -> Seq<Point> {
    seq![previous.point, a, b, previous.b, previous.a, a]
}

/// The processed point `point` with offset points `first` and `second`,
/// exchanged where `exchange` holds.
pub open spec fn oriented(point: Point, first: Point, second: Point, exchange: bool)
    -> RoundedLineVertex {
    if exchange {
        RoundedLineVertex { point, a: second, b: first }
    } else {
        RoundedLineVertex { point, a: first, b: second }
    }
}

/// The processed point at an end of a stroke.  After a predecessor the
/// two offset points are exchanged where the segments that join them to
/// the predecessor's would cross.
pub open spec fn terminating_vertex(
    point: Point,
    neighbour: Point,
    half_width: int,
    previous: Option<RoundedLineVertex>,
) -> RoundedLineVertex {
    let offset = cap_offset(point, neighbour, half_width);
    let a = point.plus(offset);
    let b = point.minus(offset);
    match previous {
        Some(p) => oriented(point, a, b, segments_cross(p.a, a, p.b, b)),
        None => oriented(point, a, b, false),
    }
}

/// The positions that an end of a stroke adds: after a predecessor the
/// stitch block that leads to it, then the fan of the cap.
pub open spec fn terminating_positions(
    point: Point,
    neighbour: Point,
    half_width: int,
    previous: Option<RoundedLineVertex>,
) -> Seq<Point> {
    let vertex = terminating_vertex(point, neighbour, half_width, previous);
    let cap = fan(
        point,
        cap_offset(point, neighbour, half_width),
        cap_sweep(point.minus(neighbour)),
        SEMICIRCLE_POINTS as int,
    );
    match previous {
        Some(p) => stitch_block(p, vertex.a, vertex.b) + cap,
        None => cap,
    }
}

/// The sum of the two edge directions at `point`, each scaled to
/// `DIRECTION_LENGTH`: it points along the bisector of the turn.
pub open spec fn bisector(point: Point, from: Point, to: Point) -> Point {
    scaled_to(from.minus(point), DIRECTION_LENGTH as int).plus(
        scaled_to(to.minus(point), DIRECTION_LENGTH as int),
    )
}

/// The turn at `point` needs no joint: the two edges lie on one line, or
/// their directions cancel.
pub open spec fn is_straight(point: Point, from: Point, to: Point) -> bool {
    bisector(point, from, to).is_zero() || from.minus(point).cross(to.minus(point)) == 0
}

/// The processed point at a turn, or `None` where the turn needs no
/// joint.  The two offset points are exchanged where the segment from the
/// predecessor's first offset point to the first one here would cross
/// the path.
pub open spec fn connecting_vertex(
    point: Point,
    from: Point,
    to: Point,
    half_width: int,
    previous: RoundedLineVertex,
) -> Option<RoundedLineVertex> {
    if is_straight(point, from, to) {
        None
    } else {
        let acute = scaled_to(bisector(point, from, to), half_width);
        let a = point.plus(acute);
        let b = point.minus(acute);
        Some(oriented(point, a, b, segments_cross(previous.a, a, previous.point, point)))
    }
}

/// The positions that a turn adds: the stitch block that leads to its
/// joint, or nothing.
pub open spec fn connecting_positions(
    point: Point,
    from: Point,
    to: Point,
    half_width: int,
    previous: RoundedLineVertex,
) -> Seq<Point> {
    match connecting_vertex(point, from, to, half_width, previous) {
        Some(vertex) => stitch_block(previous, vertex.a, vertex.b),
        None => Seq::empty(),
    }
}

/// The value behind an optional reference.
pub open spec fn owned(previous: Option<&RoundedLineVertex>) -> Option<RoundedLineVertex> {
    match previous {
        Some(p) => Some(*p),
        None => None,
    }
}

impl RoundedLineVertex {
    /// The point lies where defining points may lie, and the two offset
    /// points lie opposite each other about it, no further away than a
    /// stroke can be wide.
    pub open spec fn wf(self) -> bool {
        &&& self.point.bounded_by(COORDINATE_LIMIT as int)
        &&& -OFFSET_LIMIT < self.a.x - self.point.x < OFFSET_LIMIT
        &&& -OFFSET_LIMIT < self.a.y - self.point.y < OFFSET_LIMIT
        &&& self.a.x + self.b.x == 2 * self.point.x
        &&& self.a.y + self.b.y == 2 * self.point.y
    }

    fn push_stitch_block(
        rendered_points: &mut Vec<Point>,
        previous: &RoundedLineVertex,
        a: Point,
        b: Point,
    )
        ensures
            final(rendered_points)@ == old(rendered_points)@ + stitch_block(*previous, a, b),
    {
        rendered_points.push(previous.point);
        rendered_points.push(a);
        rendered_points.push(b);
        rendered_points.push(previous.b);
        rendered_points.push(previous.a);
        rendered_points.push(a);
        assert(rendered_points@ =~= old(rendered_points)@ + stitch_block(*previous, a, b));
    }

    /// Processes an end of the stroke: `terminating_point` is the end and
    /// `too_point` the other end of its only edge.  Appends the stitch
    /// block from the predecessor, if there is one, and the fan of the cap.
    pub fn new_terminating(
        rendered_points: &mut Vec<Point>,
        line_weight: u32,
        terminating_point: Point,
        too_point: Point,
        previous_rounded_point: Option<&RoundedLineVertex>,
    ) -> (r: Self)
        requires
            terminating_point.bounded_by(COORDINATE_LIMIT as int),
            too_point.bounded_by(COORDINATE_LIMIT as int),
            terminating_point != too_point,
            previous_rounded_point matches Some(p) ==> p.wf(),
        ensures
            r == terminating_vertex(
                terminating_point,
                too_point,
                line_weight as int,
                owned(previous_rounded_point),
            ),
            final(rendered_points)@ == old(rendered_points)@ + terminating_positions(
                terminating_point,
                too_point,
                line_weight as int,
                owned(previous_rounded_point),
            ),
            r.wf(),
    {
        let (offset, sweep) = perpendicular_offset_and_direction(
            terminating_point,
            too_point,
            line_weight,
        );
        let mut a: Point = terminating_point.plus(offset);
        let mut b: Point = terminating_point.minus(offset);
        if let Some(previous) = previous_rounded_point {
            if does_segment_intersect_segment((previous.a, a), (previous.b, b)) {
                let first: Point = a;
                a = b;
                b = first;
            }
            Self::push_stitch_block(rendered_points, previous, a, b);
        }
        push_fan(rendered_points, terminating_point, offset, sweep, SEMICIRCLE_POINTS);
        RoundedLineVertex { point: terminating_point, a, b }
    }

    /// Processes a turn of the stroke at `connecting_point`, which lies
    /// between `from_point` and `too_point` on the path.  Appends the
    /// stitch block from the predecessor, unless the turn needs no joint.
    pub fn new_connecting(
        rendered_points: &mut Vec<Point>,
        line_weight: u32,
        connecting_point: Point,
        from_point: Point,
        too_point: Point,
        previous_rounded_point: &RoundedLineVertex,
    ) -> (r: Option<Self>)
        requires
            connecting_point.bounded_by(COORDINATE_LIMIT as int),
            from_point.bounded_by(COORDINATE_LIMIT as int),
            too_point.bounded_by(COORDINATE_LIMIT as int),
            connecting_point != from_point,
            connecting_point != too_point,
            previous_rounded_point.wf(),
        ensures
            r == connecting_vertex(
                connecting_point,
                from_point,
                too_point,
                line_weight as int,
                *previous_rounded_point,
            ),
            final(rendered_points)@ == old(rendered_points)@ + connecting_positions(
                connecting_point,
                from_point,
                too_point,
                line_weight as int,
                *previous_rounded_point,
            ),
            r matches Some(vertex) ==> vertex.wf(),
    {
        let incoming: Point = from_point.minus(connecting_point);
        let outgoing: Point = too_point.minus(connecting_point);
        let outgoing_from_vector: Point = normalize_vector(incoming, DIRECTION_LENGTH);
        let outgoing_to_vector: Point = normalize_vector(outgoing, DIRECTION_LENGTH);
        let sum: Point = outgoing_from_vector.plus(outgoing_to_vector);
        if sum.x == 0 && sum.y == 0 {
            assert(rendered_points@ =~= old(rendered_points)@ + Seq::<Point>::empty());
            return None;
        }
        if cross_is_zero(incoming, outgoing) {
            assert(rendered_points@ =~= old(rendered_points)@ + Seq::<Point>::empty());
            return None;
        }
        let bisecting_vector_acute: Point = normalize_vector(sum, line_weight);
        let mut a: Point = connecting_point.plus(bisecting_vector_acute);
        let mut b: Point = connecting_point.minus(bisecting_vector_acute);
        if does_segment_intersect_segment(
            (previous_rounded_point.a, a),
            (previous_rounded_point.point, connecting_point),
        ) {
            let first: Point = a;
            a = b;
            b = first;
        }
        Self::push_stitch_block(rendered_points, previous_rounded_point, a, b);
        Some(RoundedLineVertex { point: connecting_point, a, b })
    }
}

fn cross_is_zero(u: Point, v: Point) -> (r: bool)
    requires
        u.bounded_by(OFFSET_LIMIT as int),
        v.bounded_by(OFFSET_LIMIT as int),
    ensures
        r == (u.cross(v) == 0),
{
    let ux: i128 = u.x as i128;
    let uy: i128 = u.y as i128;
    let vx: i128 = v.x as i128;
    let vy: i128 = v.y as i128;
    assert(-0x1_0000_0000_0000_0000 <= ux * vy <= 0x1_0000_0000_0000_0000) by (nonlinear_arith)
        requires
            -0x1_0000_0000 <= ux <= 0x1_0000_0000,
            -0x1_0000_0000 <= vy <= 0x1_0000_0000,
    ;
    assert(-0x1_0000_0000_0000_0000 <= uy * vx <= 0x1_0000_0000_0000_0000) by (nonlinear_arith)
        requires
            -0x1_0000_0000 <= uy <= 0x1_0000_0000,
            -0x1_0000_0000 <= vx <= 0x1_0000_0000,
    ;
    ux * vy == uy * vx
}

/// What a stroke can be made of: every point lies within
/// `COORDINATE_LIMIT` of the origin on both axes, and no edge has length
/// zero.
pub open spec fn is_path(points: Seq<Point>) -> bool {
    &&& forall|i: int|
        0 <= i < points.len() ==> (#[trigger] points[i]).bounded_by(COORDINATE_LIMIT as int)
    &&& forall|i: int| 0 <= i < points.len() - 1 ==> #[trigger] points[i] != points[i + 1]
}

/// Whether `points` can be made into a stroke or a dot: whether every
/// point lies in reach and no edge has length zero.
pub fn can_be_drawn(points: &Vec<Point>) -> (r: bool)
    ensures
        r == is_path(points@),
{
    let mut i: usize = 0;
    while i < points.len()
        invariant
            i <= points.len(),
            forall|j: int|
                0 <= j < i ==> (#[trigger] points@[j]).bounded_by(COORDINATE_LIMIT as int),
            forall|j: int| 0 <= j < i - 1 ==> #[trigger] points@[j] != points@[j + 1],
        decreases points.len() - i,
    {
        let point: Point = points[i];
        if point.x < -COORDINATE_LIMIT || point.x > COORDINATE_LIMIT || point.y
            < -COORDINATE_LIMIT || point.y > COORDINATE_LIMIT {
            assert(!points@[i as int].bounded_by(COORDINATE_LIMIT as int));
            return false;
        }
        if i > 0 {
            let before: Point = points[i - 1];
            if before.x == point.x && before.y == point.y {
                assert(points@[i - 1] == points@[i - 1 + 1]);
                return false;
            }
        }
        i = i + 1;
    }
    true
}

/// The processed point at the start of a stroke.
pub open spec fn start_vertex(points: Seq<Point>, half_width: int) -> RoundedLineVertex {
    terminating_vertex(points[0], points[1], half_width, None)
}

/// The processed points from the defining point `i` to the end of the
/// stroke, where `last` is the processed point before them.
pub open spec fn scan_vertices(
    points: Seq<Point>,
    half_width: int,
    i: int,
    last: RoundedLineVertex,
) -> Seq<RoundedLineVertex>
    decreases points.len() - i,
{
    if i >= points.len() - 1 {
        seq![terminating_vertex(points[i], points[i - 1], half_width, Some(last))]
    } else {
        match connecting_vertex(points[i], points[i - 1], points[i + 1], half_width, last) {
            Some(vertex) => seq![vertex] + scan_vertices(points, half_width, i + 1, vertex),
            None => scan_vertices(points, half_width, i + 1, last),
        }
    }
}

/// The positions that the defining points from `i` to the end of the
/// stroke add, where `last` is the processed point before them.
pub open spec fn scan_positions(
    points: Seq<Point>,
    half_width: int,
    i: int,
    last: RoundedLineVertex,
) -> Seq<Point>
    decreases points.len() - i,
{
    if i >= points.len() - 1 {
        terminating_positions(points[i], points[i - 1], half_width, Some(last))
    } else {
        match connecting_vertex(points[i], points[i - 1], points[i + 1], half_width, last) {
            Some(vertex) => stitch_block(last, vertex.a, vertex.b) + scan_positions(
                points,
                half_width,
                i + 1,
                vertex,
            ),
            None => scan_positions(points, half_width, i + 1, last),
        }
    }
}

/// The processed points of the stroke through `points`, which are at
/// least two: its start, a joint for each turn that needs one, its end.
pub open spec fn stroke_vertices(points: Seq<Point>, half_width: int) -> Seq<RoundedLineVertex> {
    seq![start_vertex(points, half_width)] + scan_vertices(
        points,
        half_width,
        1,
        start_vertex(points, half_width),
    )
}

/// The positions of the stroke through `points`, which are at least two,
/// in path order: the fan of the start cap, a stitch block for each joint,
/// the stitch block and the fan of the end cap.
pub open spec fn stroke_positions(points: Seq<Point>, half_width: int) -> Seq<Point> {
    terminating_positions(points[0], points[1], half_width, None) + scan_positions(
        points,
        half_width,
        1,
        start_vertex(points, half_width),
    )
}

/// The stitch blocks between the processed points of a stroke, in path
/// order: one for each pair of consecutive processed points.
pub open spec fn stitches(vertices: Seq<RoundedLineVertex>) -> Seq<Point>
    decreases vertices.len(),
{
    if vertices.len() < 2 {
        Seq::empty()
    } else {
        stitch_block(vertices[0], vertices[1].a, vertices[1].b) + stitches(vertices.drop_first())
    }
}

/// The two offset points of each processed point lie on the sides of the
/// path on which the ones before them lie.  Up to a joint, the segment
/// between the first offset points of two consecutive processed points
/// does not cross the path between the two.  Up to the end of the stroke,
/// the segment between the first offset points does not cross the segment
/// between the second ones.
pub open spec fn keeps_sides(vertices: Seq<RoundedLineVertex>) -> bool {
    &&& forall|j: int|
        0 <= j < vertices.len() - 2 ==> !segments_cross(
            (#[trigger] vertices[j]).a,
            vertices[j + 1].a,
            vertices[j].point,
            vertices[j + 1].point,
        )
    &&& vertices.len() >= 2 ==> !segments_cross(
        vertices[vertices.len() - 2].a,
        vertices[vertices.len() - 1].a,
        vertices[vertices.len() - 2].b,
        vertices[vertices.len() - 1].b,
    )
}

/// A stroke of constant width with round caps, ready to be drawn.
pub struct RoundedLine {
    defining_points: Vec<RoundedLineVertex>,
    rendered_points: Vec<Point>,
    rendered_vertexes: Vec<Vertex>,
    line_weight: u32,
    color: Color,
}

/// What a `RoundedLine` holds.
pub struct RoundedLineView {
    /// The processed points, in path order.
    pub defining_points: Seq<RoundedLineVertex>,
    /// The positions of the mesh.
    pub positions: Seq<Point>,
    /// The vertex buffer.
    pub vertexes: Seq<Vertex>,
    /// Half the width of the stroke.
    pub line_weight: u32,
    /// The colour of the stroke.
    pub color: Color,
}

impl View for RoundedLine {
    type V = RoundedLineView;

    closed spec fn view(&self) -> RoundedLineView {
        RoundedLineView {
            defining_points: self.defining_points@,
            positions: self.rendered_points@,
            vertexes: self.rendered_vertexes@,
            line_weight: self.line_weight,
            color: self.color,
        }
    }
}

impl RoundedLineView {
    /// The vertex buffer shows the positions in the stroke's colour.  The
    /// mesh is a fan, one stitch block for each pair of consecutive
    /// processed points, and a fan.  Every processed point is well formed,
    /// and its offset points lie on the sides of their predecessors.
    pub open spec fn wf(self) -> bool {
        &&& self.defining_points.len() >= 2
        &&& self.positions.len() == 4 * (SEMICIRCLE_POINTS + 1) + 6 * (self.defining_points.len()
            - 1)
        &&& self.positions.subrange(
            2 * (SEMICIRCLE_POINTS + 1),
            self.positions.len() - 2 * (SEMICIRCLE_POINTS + 1),
        ) == stitches(self.defining_points)
        &&& self.vertexes == decorated(self.positions, self.color)
        &&& forall|j: int|
            0 <= j < self.defining_points.len() ==> (#[trigger] self.defining_points[j]).wf()
        &&& keeps_sides(self.defining_points)
    }

    /// The same stroke in another colour.
    pub open spec fn recolored(self, color: Color) -> RoundedLineView {
        RoundedLineView { vertexes: decorated(self.positions, color), color, ..self }
    }
}

/// Recolouring keeps the geometry and is idempotent: the processed
/// points and the positions stay as they are, also inside the vertex
/// buffer, and a second recolouring in the same colour changes nothing.
pub proof fn lemma_recolored_line(line: RoundedLineView, color: Color)
    requires
        line.wf(),
    ensures
        line.recolored(color).wf(),
        line.recolored(color).defining_points == line.defining_points,
        line.recolored(color).positions == line.positions,
        positions_of(line.recolored(color).vertexes) == positions_of(line.vertexes),
        line.recolored(color).recolored(color) == line.recolored(color),
        line.recolored(line.color) == line,
{
    lemma_decorated_keeps_positions(line.positions, color);
    lemma_decorated_keeps_positions(line.positions, line.color);
}

impl RoundedLine {
    /// Tessellates the stroke through `defining_points` with half-width
    /// `line_weight`.  Fewer than two points make no stroke.
    pub fn new(defining_points: Vec<Point>, line_weight: u32, color: Color) -> (r: Option<Self>)
        requires
            is_path(defining_points@),
        ensures
            r is None <==> defining_points.len() < 2,
            r matches Some(line) ==> line@.defining_points == stroke_vertices(
                defining_points@,
                line_weight as int,
            ),
            r matches Some(line) ==> line@.positions == stroke_positions(
                defining_points@,
                line_weight as int,
            ),
            r matches Some(line) ==> line@.vertexes == decorated(line@.positions, color),
            r matches Some(line) ==> line@.line_weight == line_weight,
            r matches Some(line) ==> line@.color == color,
            r matches Some(line) ==> line@.wf(),
            r matches Some(line) ==> line@.positions.len() == 4 * (SEMICIRCLE_POINTS + 1) + 6 * (
            line@.defining_points.len() - 1),
    {
        let defining_points_len: usize = defining_points.len();
        if defining_points_len < 2 {
            return None;
        }
        let ghost points = defining_points@;
        let ghost half_width = line_weight as int;
        let mut processed_defining_points: Vec<RoundedLineVertex> = Vec::new();
        let mut rendered_points: Vec<Point> = Vec::new();
        assert(points[0] != points[1]);
        let start: RoundedLineVertex = RoundedLineVertex::new_terminating(
            &mut rendered_points,
            line_weight,
            defining_points[0],
            defining_points[1],
            None,
        );
        processed_defining_points.push(start);
        let mut last: RoundedLineVertex = start;
        let mut i: usize = 1;
        assert(rendered_points@ =~= terminating_positions(points[0], points[1], half_width, None));
        assert(processed_defining_points@ =~= seq![start]);
        while i < defining_points_len - 1
            invariant
                points == defining_points@,
                half_width == line_weight as int,
                defining_points_len == points.len(),
                is_path(points),
                1 <= i <= defining_points_len - 1,
                last.wf(),
                rendered_points@ + scan_positions(points, half_width, i as int, last)
                    == stroke_positions(points, half_width),
                processed_defining_points@ + scan_vertices(points, half_width, i as int, last)
                    == stroke_vertices(points, half_width),
            decreases defining_points_len - i,
        {
            let ghost rendered_before = rendered_points@;
            let ghost processed_before = processed_defining_points@;
            assert(points[i as int] != points[i - 1]);
            assert(points[i as int] != points[i + 1]);
            match RoundedLineVertex::new_connecting(
                &mut rendered_points,
                line_weight,
                defining_points[i],
                defining_points[i - 1],
                defining_points[i + 1],
                &last,
            ) {
                Some(rounded_line_vertex) => {
                    processed_defining_points.push(rounded_line_vertex);
                    proof {
                        let joint = rounded_line_vertex;
                        let block = stitch_block(last, joint.a, joint.b);
                        let rest = scan_positions(points, half_width, i + 1, joint);
                        assert((rendered_before + block) + rest =~= rendered_before + (block
                            + rest));
                        let others = scan_vertices(points, half_width, i + 1, joint);
                        assert(processed_before.push(joint) + others =~= processed_before + (
                        seq![joint] + others));
                    }
                    last = rounded_line_vertex;
                },
                None => {
                    assert(rendered_points@ =~= rendered_before);
                },
            }
            i = i + 1;
        }
        assert(points[i as int] != points[i - 1]);
        let ghost rendered_before = rendered_points@;
        let ghost processed_before = processed_defining_points@;
        let end: RoundedLineVertex = RoundedLineVertex::new_terminating(
            &mut rendered_points,
            line_weight,
            defining_points[i],
            defining_points[i - 1],
            Some(&last),
        );
        processed_defining_points.push(end);
        assert(processed_defining_points@ =~= processed_before + seq![end]);
        let mut rendered_vertexes: Vec<Vertex> = Vec::new();
        decorate(&mut rendered_vertexes, &rendered_points, color);
        proof {
            lemma_stroke_count(points, half_width);
            lemma_stroke_layout(points, half_width);
            lemma_stroke_keeps_sides(points, half_width);
        }
        Some(
            RoundedLine {
                defining_points: processed_defining_points,
                rendered_points,
                rendered_vertexes,
                line_weight,
                color,
            },
        )
    }

    /// Shows the stroke in another colour.  The geometry is kept as it is.
    pub fn rerender_vertexes(&mut self, color: Color)
        ensures
            final(self)@ == old(self)@.recolored(color),
            old(self)@.wf() ==> final(self)@.wf(),
    {
        decorate(&mut self.rendered_vertexes, &self.rendered_points, color);
        self.color = color;
    }

    /// The vertex buffer, to be drawn as a triangle strip.
    pub fn get_rendered_vertexes(&self) -> (r: &Vec<Vertex>)
        ensures
            r@ == self@.vertexes,
    {
        &self.rendered_vertexes
    }

    /// The positions of the mesh, without colour.
    pub fn get_rendered_points(&self) -> (r: &Vec<Point>)
        ensures
            r@ == self@.positions,
    {
        &self.rendered_points
    }

    /// The processed points: the start, each joint, the end.
    pub fn get_defining_points(&self) -> (r: &Vec<RoundedLineVertex>)
        ensures
            r@ == self@.defining_points,
    {
        &self.defining_points
    }

    /// Half the width of the stroke.
    pub fn get_line_weight(&self) -> (r: u32)
        ensures
            r == self@.line_weight,
    {
        self.line_weight
    }

    /// The colour of the stroke.
    pub fn get_color(&self) -> (r: Color)
        ensures
            r == self@.color,
    {
        self.color
    }
}

} // verus!
