use jamspace::circle::{
    cosine_of, push_fan, rotate, sine_of, Sweep, CIRCLE_POINTS, SEMICIRCLE_POINTS, UNIT,
};
use jamspace::point::Point;

fn p(x: i64, y: i64) -> Point {
    Point::new(x, y)
}

#[test]
fn the_sample_densities_are_sixteen_and_thirty_two() {
    assert_eq!(SEMICIRCLE_POINTS, 16);
    assert_eq!(CIRCLE_POINTS, 32);
    assert_eq!(UNIT, 1 << 30);
}

#[test]
fn the_table_holds_the_axes_and_the_diagonals() {
    let expected: [(usize, i64, i64); 10] = [
        (0, 1073741824, 0),
        (1, 1053110176, 209476638),
        (4, 759250125, 759250125),
        (8, 0, 1073741824),
        (12, -759250125, 759250125),
        (16, -1073741824, 0),
        (20, -759250125, -759250125),
        (24, 0, -1073741824),
        (28, 759250125, -759250125),
        (32, 1073741824, 0),
    ];
    for (step, c, s) in expected {
        assert_eq!(cosine_of(step), c);
        assert_eq!(sine_of(step), s);
    }
}

#[test]
fn the_table_follows_the_cosine_and_the_sine() {
    for step in 0..=32usize {
        let angle = step as f64 * std::f64::consts::PI / 16.0;
        let c = cosine_of(step) as f64 / UNIT as f64;
        let s = sine_of(step) as f64 / UNIT as f64;
        assert!((c - angle.cos()).abs() < 1e-9);
        assert!((s - angle.sin()).abs() < 1e-9);
    }
}

#[test]
fn every_direction_lies_on_the_unit_circle() {
    for step in 0..=32usize {
        let c = cosine_of(step) as i128;
        let s = sine_of(step) as i128;
        let off = c * c + s * s - (UNIT as i128) * (UNIT as i128);
        assert!(-(UNIT as i128) <= off && off <= UNIT as i128);
        if step >= 16 {
            assert_eq!(cosine_of(step), -cosine_of(step - 16));
            assert_eq!(sine_of(step), -sine_of(step - 16));
        }
    }
}

#[test]
fn turns_by_quarters_are_exact() {
    let v = p(3, 4);
    assert_eq!(rotate(v, 0, Sweep::Increasing), v);
    assert_eq!(rotate(v, 0, Sweep::Decreasing), v);
    assert_eq!(rotate(v, 8, Sweep::Increasing), p(4, -3));
    assert_eq!(rotate(v, 8, Sweep::Decreasing), p(-4, 3));
    assert_eq!(rotate(v, 16, Sweep::Increasing), p(-3, -4));
    assert_eq!(rotate(v, 16, Sweep::Decreasing), p(-3, -4));
    assert_eq!(rotate(v, 24, Sweep::Increasing), p(-4, 3));
    assert_eq!(rotate(v, 32, Sweep::Increasing), v);
    assert_eq!(rotate(p(0, -10), 8, Sweep::Increasing), p(-10, 0));
}

#[test]
fn other_turns_round_to_the_nearest_grid_point() {
    assert_eq!(rotate(p(10, 0), 4, Sweep::Increasing), p(7, -7));
    assert_eq!(rotate(p(10, 0), 4, Sweep::Decreasing), p(7, 7));
    assert_eq!(rotate(p(1000000, 0), 1, Sweep::Increasing), p(980785, -195090));
    assert_eq!(rotate(p(1000000, 0), 1, Sweep::Decreasing), p(980785, 195090));
    assert_eq!(rotate(p(-7, 24), 5, Sweep::Decreasing), p(-24, 8));
    let limit: i64 = 1 << 32;
    assert_eq!(rotate(p(limit, -limit), 4, Sweep::Increasing), p(0, -6074001000));
}

#[test]
fn the_two_sweeps_mirror_each_other() {
    for step in 0..=32usize {
        let up = rotate(p(1000, 0), step, Sweep::Increasing);
        let down = rotate(p(1000, 0), step, Sweep::Decreasing);
        assert_eq!(up.x, down.x);
        assert_eq!(up.y, -down.y);
    }
}

#[test]
fn a_fan_pairs_each_rim_point_with_the_centre() {
    let mut mesh: Vec<Point> = vec![p(1, 1)];
    push_fan(&mut mesh, p(100, 200), p(10, 0), Sweep::Increasing, 16);
    assert_eq!(mesh.len(), 1 + 2 * 17);
    assert_eq!(mesh[0], p(1, 1));
    for k in 0..17usize {
        assert_eq!(mesh[1 + 2 * k], p(100, 200).plus(rotate(p(10, 0), k, Sweep::Increasing)));
        assert_eq!(mesh[2 + 2 * k], p(100, 200));
    }
    assert_eq!(mesh[1], p(110, 200));
    assert_eq!(mesh[1 + 16], p(100, 190));
    assert_eq!(mesh[1 + 32], p(90, 200));
}

#[test]
fn a_fan_of_no_segment_is_one_pair() {
    let mut mesh: Vec<Point> = Vec::new();
    push_fan(&mut mesh, p(5, 5), p(0, 3), Sweep::Decreasing, 0);
    assert_eq!(mesh, vec![p(5, 8), p(5, 5)]);
}
