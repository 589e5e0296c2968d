use jamspace::point::Point;
use jamspace::rounded_line::{can_be_drawn, RoundedLine, RoundedLineVertex};
use jamspace::utils::does_segment_intersect_segment;
use jamspace::vertex::{Color, Vertex};

fn points(coordinates: &[(i64, i64)]) -> Vec<Point> {
    coordinates.iter().map(|c| Point::new(c.0, c.1)).collect()
}

fn stroke(coordinates: &[(i64, i64)], half_width: u32) -> RoundedLine {
    match RoundedLine::new(points(coordinates), half_width, Color::rgb(255, 0, 0)) {
        Some(line) => line,
        None => panic!("two points or more make a stroke"),
    }
}

fn processed(point: (i64, i64), a: (i64, i64), b: (i64, i64)) -> RoundedLineVertex {
    RoundedLineVertex {
        point: Point::new(point.0, point.1),
        a: Point::new(a.0, a.1),
        b: Point::new(b.0, b.1),
    }
}

fn straight_stroke_mesh() -> Vec<Point> {
    points(&[
        (0, -10), (0, 0), (-2, -10), (0, 0), (-4, -9), (0, 0),
        (-6, -8), (0, 0), (-7, -7), (0, 0), (-8, -6), (0, 0),
        (-9, -4), (0, 0), (-10, -2), (0, 0), (-10, 0), (0, 0),
        (-10, 2), (0, 0), (-9, 4), (0, 0), (-8, 6), (0, 0),
        (-7, 7), (0, 0), (-6, 8), (0, 0), (-4, 9), (0, 0),
        (-2, 10), (0, 0), (0, 10), (0, 0), (0, 0), (50, -10),
        (50, 10), (0, 10), (0, -10), (50, -10), (50, -10), (50, 0),
        (52, -10), (50, 0), (54, -9), (50, 0), (56, -8), (50, 0),
        (57, -7), (50, 0), (58, -6), (50, 0), (59, -4), (50, 0),
        (60, -2), (50, 0), (60, 0), (50, 0), (60, 2), (50, 0),
        (59, 4), (50, 0), (58, 6), (50, 0), (57, 7), (50, 0),
        (56, 8), (50, 0), (54, 9), (50, 0), (52, 10), (50, 0),
        (50, 10), (50, 0),
    ])
}

fn right_angle_mesh() -> Vec<Point> {
    points(&[
        (0, -10), (0, 0), (-2, -10), (0, 0), (-4, -9), (0, 0),
        (-6, -8), (0, 0), (-7, -7), (0, 0), (-8, -6), (0, 0),
        (-9, -4), (0, 0), (-10, -2), (0, 0), (-10, 0), (0, 0),
        (-10, 2), (0, 0), (-9, 4), (0, 0), (-8, 6), (0, 0),
        (-7, 7), (0, 0), (-6, 8), (0, 0), (-4, 9), (0, 0),
        (-2, 10), (0, 0), (0, 10), (0, 0), (0, 0), (57, -7),
        (43, 7), (0, 10), (0, -10), (57, -7), (50, 0), (60, 50),
        (40, 50), (43, 7), (57, -7), (60, 50), (60, 50), (50, 50),
        (60, 52), (50, 50), (59, 54), (50, 50), (58, 56), (50, 50),
        (57, 57), (50, 50), (56, 58), (50, 50), (54, 59), (50, 50),
        (52, 60), (50, 50), (50, 60), (50, 50), (48, 60), (50, 50),
        (46, 59), (50, 50), (44, 58), (50, 50), (43, 57), (50, 50),
        (42, 56), (50, 50), (41, 54), (50, 50), (40, 52), (50, 50),
        (40, 50), (50, 50),
    ])
}

#[test]
fn fewer_than_two_points_make_no_stroke() {
    assert!(RoundedLine::new(Vec::new(), 10, Color::rgb(255, 0, 0)).is_none());
    assert!(RoundedLine::new(points(&[(10, 10)]), 10, Color::rgb(255, 0, 0)).is_none());
}

#[test]
fn two_points_give_two_caps_and_one_stitch_block() {
    let line = stroke(&[(0, 0), (50, 0)], 10);
    assert_eq!(line.get_rendered_points().len(), 2 * 34 + 6);
    assert_eq!(line.get_rendered_points(), &straight_stroke_mesh());
    assert_eq!(
        line.get_defining_points(),
        &vec![processed((0, 0), (0, -10), (0, 10)), processed((50, 0), (50, -10), (50, 10))]
    );
    assert_eq!(line.get_line_weight(), 10);
}

#[test]
fn the_stitch_block_joins_the_two_processed_points() {
    let line = stroke(&[(0, 0), (50, 0)], 10);
    let block: Vec<Point> = line.get_rendered_points()[34..40].to_vec();
    assert_eq!(block, points(&[(0, 0), (50, -10), (50, 10), (0, 10), (0, -10), (50, -10)]));
}

#[test]
fn a_cap_starts_at_one_offset_point_passes_the_tip_and_ends_at_the_other() {
    let line = stroke(&[(0, 0), (50, 0)], 10);
    let mesh = line.get_rendered_points();
    assert_eq!(mesh[0], Point::new(0, -10));
    assert_eq!(mesh[16], Point::new(-10, 0));
    assert_eq!(mesh[32], Point::new(0, 10));
    assert_eq!(mesh[40], Point::new(50, -10));
    assert_eq!(mesh[56], Point::new(60, 0));
    assert_eq!(mesh[72], Point::new(50, 10));
    for k in 0..17 {
        assert_eq!(mesh[2 * k + 1], Point::new(0, 0));
        assert_eq!(mesh[40 + 2 * k + 1], Point::new(50, 0));
    }
}

#[test]
fn the_vertex_count_follows_from_the_number_of_processed_points() {
    let cases: Vec<Vec<(i64, i64)>> = vec![
        vec![(0, 0), (50, 0)],
        vec![(0, 0), (50, 0), (50, 50)],
        vec![(0, 0), (30, 40), (60, 0), (90, 40)],
        vec![(0, 0), (50, 0), (50, 50), (100, 50), (100, 0)],
        vec![(0, 0), (25, 0), (50, 0), (50, 50)],
    ];
    for case in cases {
        let line = stroke(&case, 10);
        let emitted = line.get_defining_points().len();
        assert_eq!(line.get_rendered_points().len(), 2 * 34 + 6 * (emitted - 1));
        assert_eq!(line.get_rendered_vertexes().len(), line.get_rendered_points().len());
    }
}

#[test]
fn without_straight_turns_every_point_is_processed() {
    let line = stroke(&[(0, 0), (30, 40), (60, 0), (90, 40)], 10);
    assert_eq!(line.get_defining_points().len(), 4);
    assert_eq!(line.get_rendered_points().len(), 2 * 34 + 6 * 3);
    assert_eq!(
        line.get_defining_points(),
        &vec![
            processed((0, 0), (8, -6), (-8, 6)),
            processed((30, 40), (30, 30), (30, 50)),
            processed((60, 0), (60, -10), (60, 10)),
            processed((90, 40), (98, 34), (82, 46)),
        ]
    );
}

#[test]
fn three_collinear_points_give_the_stroke_of_the_outer_two() {
    for half_width in [0u32, 1, 7, 10, 25, 1000] {
        let with_middle = stroke(&[(0, 0), (25, 0), (50, 0)], half_width);
        let without = stroke(&[(0, 0), (50, 0)], half_width);
        assert_eq!(with_middle.get_rendered_points(), without.get_rendered_points());
        assert_eq!(with_middle.get_rendered_vertexes(), without.get_rendered_vertexes());
        assert_eq!(with_middle.get_defining_points(), without.get_defining_points());
        assert_eq!(with_middle.get_defining_points().len(), 2);
    }
}

#[test]
fn a_point_between_its_neighbours_adds_nothing_on_a_slanted_line() {
    let with_middle = stroke(&[(-5, -5), (-2, -1), (4, 7)], 9);
    let without = stroke(&[(-5, -5), (4, 7)], 9);
    assert_eq!(with_middle.get_rendered_points(), without.get_rendered_points());
    assert_eq!(
        with_middle.get_defining_points(),
        &vec![processed((-5, -5), (2, -10), (-12, 0)), processed((4, 7), (11, 2), (-3, 12))]
    );
    let longer = stroke(&[(3, 3), (10, 3), (20, 13), (30, 23), (30, 40)], 6);
    let shorter = stroke(&[(3, 3), (10, 3), (30, 23), (30, 40)], 6);
    assert_eq!(longer.get_rendered_points(), shorter.get_rendered_points());
    assert_eq!(longer.get_rendered_points().len(), 86);
}

#[test]
fn a_right_angle_gives_a_start_cap_one_joint_and_an_end_cap() {
    let line = stroke(&[(0, 0), (50, 0), (50, 50)], 10);
    assert_eq!(
        line.get_defining_points(),
        &vec![
            processed((0, 0), (0, -10), (0, 10)),
            processed((50, 0), (57, -7), (43, 7)),
            processed((50, 50), (60, 50), (40, 50)),
        ]
    );
    assert_eq!(line.get_rendered_points().len(), 2 * 34 + 6 * 2);
    assert_eq!(line.get_rendered_points(), &right_angle_mesh());
}

#[test]
fn the_offsets_of_a_right_angle_joint_lie_on_the_bisector() {
    let line = stroke(&[(0, 0), (50, 0), (50, 50)], 10);
    let joint = line.get_defining_points()[1];
    let to_a = (joint.a.x - joint.point.x, joint.a.y - joint.point.y);
    let to_b = (joint.b.x - joint.point.x, joint.b.y - joint.point.y);
    assert_eq!(to_a, (7, -7));
    assert_eq!(to_b, (-7, 7));
    assert_eq!(to_a.0 + to_a.1, 0);
    let length_sq = to_a.0 * to_a.0 + to_a.1 * to_a.1;
    assert!(length_sq <= 100);
    assert!((to_a.0.abs() + 1) * (to_a.0.abs() + 1) + (to_a.1.abs() + 1) * (to_a.1.abs() + 1) > 100);
}

#[test]
fn on_a_fine_grid_the_joint_offset_is_ten_pixels_long() {
    let units_per_pixel: f64 = 64.0;
    let scale = |pixels: f64| (pixels * units_per_pixel).round() as i64;
    let path = vec![
        Point::new(scale(0.0), scale(0.0)),
        Point::new(scale(50.0), scale(0.0)),
        Point::new(scale(50.0), scale(50.0)),
    ];
    let line = match RoundedLine::new(path, scale(10.0) as u32, Color::rgb(255, 0, 0)) {
        Some(line) => line,
        None => panic!("three points make a stroke"),
    };
    let joint = line.get_defining_points()[1];
    let dx = (joint.a.x - joint.point.x) as f64 / units_per_pixel;
    let dy = (joint.a.y - joint.point.y) as f64 / units_per_pixel;
    let length = (dx * dx + dy * dy).sqrt();
    assert!((length - 10.0).abs() < 0.05);
    assert!((dx + dy).abs() < 0.05);
    let expected = 10.0 / 2.0f64.sqrt();
    assert!((dx - expected).abs() < 0.05);
    assert!((dy + expected).abs() < 0.05);
}

fn quad_edges(previous: &RoundedLineVertex, next: &RoundedLineVertex) -> Vec<(Point, Point)> {
    vec![(previous.a, next.a), (next.a, next.b), (next.b, previous.b), (previous.b, previous.a)]
}

fn crossings_between_adjacent_quads(line: &RoundedLine) -> usize {
    let processed_points = line.get_defining_points();
    let mut crossings = 0;
    for j in 0..processed_points.len() - 2 {
        let first = quad_edges(&processed_points[j], &processed_points[j + 1]);
        let second = quad_edges(&processed_points[j + 1], &processed_points[j + 2]);
        for e in &first {
            for f in &second {
                if does_segment_intersect_segment(*e, *f) {
                    crossings += 1;
                }
            }
        }
    }
    crossings
}

#[test]
fn adjacent_stitch_quads_of_a_right_angle_do_not_cross() {
    let line = stroke(&[(0, 0), (50, 0), (50, 50)], 10);
    assert_eq!(crossings_between_adjacent_quads(&line), 0);
    let zigzag = stroke(&[(0, 0), (30, 40), (60, 0), (90, 40)], 10);
    assert_eq!(crossings_between_adjacent_quads(&zigzag), 0);
    let steps = stroke(&[(0, 0), (50, 0), (50, 50), (100, 50), (100, 0)], 10);
    assert_eq!(crossings_between_adjacent_quads(&steps), 0);
}

#[test]
fn offset_points_keep_to_their_sides() {
    let cases: Vec<Vec<(i64, i64)>> = vec![
        vec![(0, 0), (50, 0), (50, 50)],
        vec![(0, 0), (30, 40), (60, 0), (90, 40)],
        vec![(0, 0), (50, 0), (0, 1)],
        vec![(0, 0), (-40, 10), (7, 90), (8, -3), (100, 100)],
    ];
    for case in cases {
        let line = stroke(&case, 10);
        let v = line.get_defining_points();
        let n = v.len();
        for j in 0..n - 2 {
            assert!(!does_segment_intersect_segment((v[j].a, v[j + 1].a), (v[j].point, v[j + 1].point)));
        }
        assert!(!does_segment_intersect_segment((v[n - 2].a, v[n - 1].a), (v[n - 2].b, v[n - 1].b)));
        for vertex in v {
            assert_eq!(vertex.a.x + vertex.b.x, 2 * vertex.point.x);
            assert_eq!(vertex.a.y + vertex.b.y, 2 * vertex.point.y);
        }
    }
}

#[test]
fn vertical_edges_have_horizontal_cap_edges() {
    let down = stroke(&[(0, 0), (0, 50)], 10);
    assert_eq!(
        down.get_defining_points(),
        &vec![processed((0, 0), (10, 0), (-10, 0)), processed((0, 50), (10, 50), (-10, 50))]
    );
    assert_eq!(down.get_rendered_points()[16], Point::new(0, -10));
    assert_eq!(down.get_rendered_points()[56], Point::new(0, 60));
    let up = stroke(&[(0, 50), (0, 0)], 10);
    assert_eq!(
        up.get_defining_points(),
        &vec![processed((0, 50), (10, 50), (-10, 50)), processed((0, 0), (10, 0), (-10, 0))]
    );
    assert_eq!(up.get_rendered_points()[16], Point::new(0, 60));
    assert_eq!(up.get_rendered_points()[56], Point::new(0, -10));
}

#[test]
fn slanted_edges_have_perpendicular_cap_edges() {
    let cases = [
        ((30, 40), (8, -6), (-8, 6), (-6, -8)),
        ((-30, 40), (8, 6), (-8, -6), (6, -8)),
        ((30, -40), (8, 6), (-8, -6), (-6, 8)),
        ((-30, -40), (8, -6), (-8, 6), (6, 8)),
    ];
    for (end, a, b, tip) in cases {
        let line = stroke(&[(0, 0), end], 10);
        let start = line.get_defining_points()[0];
        assert_eq!(start, processed((0, 0), a, b));
        assert_eq!(line.get_rendered_points()[0], Point::new(a.0, a.1));
        assert_eq!(line.get_rendered_points()[16], Point::new(tip.0, tip.1));
        assert_eq!(line.get_rendered_points()[32], Point::new(b.0, b.1));
        assert_eq!(a.0 * end.0 + a.1 * end.1, 0);
    }
}

#[test]
fn a_path_that_runs_back_on_itself_gets_no_joint() {
    let back = stroke(&[(0, 0), (50, 0), (0, 0)], 10);
    assert_eq!(
        back.get_defining_points(),
        &vec![processed((0, 0), (0, -10), (0, 10)), processed((0, 0), (0, -10), (0, 10))]
    );
    assert_eq!(back.get_rendered_points().len(), 74);
    let on = stroke(&[(0, 0), (50, 0), (100, 0)], 10);
    assert_eq!(
        on.get_defining_points(),
        &vec![processed((0, 0), (0, -10), (0, 10)), processed((100, 0), (100, -10), (100, 10))]
    );
}

#[test]
fn a_sharp_turn_off_the_line_still_gets_a_joint() {
    let line = stroke(&[(0, 0), (50, 0), (0, 1)], 10);
    assert_eq!(
        line.get_defining_points(),
        &vec![
            processed((0, 0), (0, -10), (0, 10)),
            processed((50, 0), (41, 0), (59, 0)),
            processed((0, 1), (0, 10), (0, -8)),
        ]
    );
    assert_eq!(line.get_rendered_points().len(), 80);
}

#[test]
fn a_stroke_of_no_width_collapses_onto_the_path() {
    let line = stroke(&[(0, 0), (50, 0), (50, 50)], 0);
    assert_eq!(line.get_rendered_points().len(), 80);
    for vertex in line.get_defining_points() {
        assert_eq!(vertex.a, vertex.point);
        assert_eq!(vertex.b, vertex.point);
    }
}

#[test]
fn the_widest_stroke_between_the_farthest_points_is_tessellated() {
    let limit: i64 = 1 << 31;
    let line = stroke(&[(-limit, -limit), (limit, limit), (limit, -limit)], u32::MAX);
    assert_eq!(
        line.get_defining_points(),
        &vec![
            processed((-2147483648, -2147483648), (889516851, -5184484147), (-5184484147, 889516851)),
            processed((2147483648, 2147483648), (503870823, -1820548729), (3791096473, 6115516025)),
            processed((2147483648, -2147483648), (6442450943, -2147483648), (-2147483647, -2147483648)),
        ]
    );
    assert_eq!(line.get_rendered_points().len(), 80);
}

#[test]
fn the_vertex_buffer_shows_the_positions_in_one_colour() {
    let red = Color::rgb(255, 0, 0);
    let line = stroke(&[(0, 0), (50, 0), (50, 50)], 10);
    assert_eq!(line.get_color(), red);
    let positions = line.get_rendered_points();
    let vertexes = line.get_rendered_vertexes();
    assert_eq!(vertexes.len(), positions.len());
    for i in 0..positions.len() {
        assert_eq!(vertexes[i], Vertex::new(positions[i], red, Point::new(0, 0)));
    }
}

#[test]
fn recolouring_twice_is_recolouring_once() {
    let green = Color::rgb(0, 255, 0);
    let mut line = stroke(&[(0, 0), (50, 0), (50, 50)], 10);
    let positions_before = line.get_rendered_points().clone();
    let processed_before = line.get_defining_points().clone();
    line.rerender_vertexes(green);
    let once = line.get_rendered_vertexes().clone();
    line.rerender_vertexes(green);
    assert_eq!(line.get_rendered_vertexes(), &once);
    assert_eq!(line.get_rendered_points(), &positions_before);
    assert_eq!(line.get_defining_points(), &processed_before);
    assert_eq!(line.get_color(), green);
    for i in 0..once.len() {
        assert_eq!(once[i].position, positions_before[i]);
        assert_eq!(once[i].color, green);
        assert_eq!(once[i].tex_coords, Point::new(0, 0));
    }
}

#[test]
fn a_path_can_be_drawn_if_it_is_in_reach_and_has_no_empty_edge() {
    let limit: i64 = 1 << 31;
    assert!(can_be_drawn(&Vec::new()));
    assert!(can_be_drawn(&points(&[(3, 4)])));
    assert!(can_be_drawn(&points(&[(0, 0), (50, 0), (0, 0)])));
    assert!(can_be_drawn(&points(&[(-limit, limit), (limit, -limit)])));
    assert!(!can_be_drawn(&points(&[(0, 0), (0, 0)])));
    assert!(!can_be_drawn(&points(&[(0, 0), (50, 0), (50, 0), (60, 0)])));
    assert!(!can_be_drawn(&points(&[(0, 0), (limit + 1, 0)])));
    assert!(!can_be_drawn(&points(&[(0, -limit - 1)])));
}

#[test]
fn caps_are_round_on_a_fine_grid() {
    let line = stroke(&[(0, 0), (3200, 1234)], 640);
    let mesh = line.get_rendered_points();
    for k in 0..17 {
        let start = mesh[2 * k];
        let d = ((start.x * start.x + start.y * start.y) as f64).sqrt();
        assert!((d - 640.0).abs() < 1.5);
        let end = mesh[40 + 2 * k];
        let dx = (end.x - 3200) as f64;
        let dy = (end.y - 1234) as f64;
        assert!(((dx * dx + dy * dy).sqrt() - 640.0).abs() < 1.5);
    }
}
