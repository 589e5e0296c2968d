use jamspace::point::{signed_area, Point};
use jamspace::root::integer_sqrt;
use jamspace::circle::Sweep;
use jamspace::utils::{
    does_segment_intersect_line, does_segment_intersect_segment, normalize_vector,
    perpendicular_offset_and_direction,
};

fn p(x: i64, y: i64) -> Point {
    Point::new(x, y)
}

#[test]
fn points_add_subtract_and_negate() {
    assert_eq!(p(3, -4).plus(p(10, 20)), p(13, 16));
    assert_eq!(p(3, -4).minus(p(10, 20)), p(-7, -24));
    assert_eq!(p(3, -4).negated(), p(-3, 4));
    assert_eq!(Point::origin(), p(0, 0));
    assert_eq!(p(5, 6).plus(p(5, 6).negated()), Point::origin());
}

#[test]
fn the_signed_area_tells_the_side() {
    assert_eq!(signed_area(p(0, 0), p(10, 0), p(0, 10)), 100);
    assert_eq!(signed_area(p(0, 0), p(10, 0), p(0, -10)), -100);
    assert_eq!(signed_area(p(0, 0), p(10, 0), p(25, 0)), 0);
    assert_eq!(signed_area(p(1, 1), p(4, 5), p(-2, 7)), 3 * 6 - 4 * (-3));
    let far: i64 = 1 << 61;
    assert_eq!(
        signed_area(p(-far, -far), p(far, -far), p(far, far)),
        (1i128 << 62) * (1i128 << 62)
    );
}

#[test]
fn segments_that_cross_properly_intersect() {
    assert!(does_segment_intersect_segment((p(0, 0), p(10, 10)), (p(0, 10), p(10, 0))));
    assert!(does_segment_intersect_segment((p(0, 10), p(10, 0)), (p(0, 0), p(10, 10))));
    assert!(does_segment_intersect_segment((p(10, 10), p(0, 0)), (p(10, 0), p(0, 10))));
    assert!(does_segment_intersect_segment((p(-5, 0), p(5, 0)), (p(0, -1), p(0, 1))));
}

#[test]
fn segments_apart_do_not_intersect() {
    assert!(!does_segment_intersect_segment((p(0, 0), p(10, 0)), (p(0, 5), p(10, 5))));
    assert!(!does_segment_intersect_segment((p(0, 0), p(10, 10)), (p(20, 0), p(30, -10))));
    assert!(!does_segment_intersect_segment((p(0, 0), p(4, 4)), (p(0, 10), p(10, 0))));
}

#[test]
fn touching_segments_do_not_intersect() {
    assert!(!does_segment_intersect_segment((p(0, 0), p(10, 0)), (p(5, 0), p(5, 5))));
    assert!(!does_segment_intersect_segment((p(5, 0), p(5, 5)), (p(0, 0), p(10, 0))));
    assert!(!does_segment_intersect_segment((p(0, 0), p(10, 0)), (p(10, 0), p(20, 10))));
    assert!(!does_segment_intersect_segment((p(0, 0), p(10, 0)), (p(0, 0), p(-3, 7))));
}

#[test]
fn collinear_segments_do_not_intersect() {
    assert!(!does_segment_intersect_segment((p(0, 0), p(10, 0)), (p(5, 0), p(15, 0))));
    assert!(!does_segment_intersect_segment((p(0, 0), p(10, 10)), (p(2, 2), p(8, 8))));
    assert!(!does_segment_intersect_segment((p(0, 0), p(10, 0)), (p(0, 0), p(10, 0))));
}

#[test]
fn a_segment_meets_a_line_unless_it_lies_on_one_side() {
    assert!(does_segment_intersect_line((p(0, -5), p(0, 5)), (p(-10, 0), p(-9, 0))));
    assert!(does_segment_intersect_line((p(0, 0), p(0, 5)), (p(-10, 0), p(-9, 0))));
    assert!(does_segment_intersect_line((p(3, 0), p(7, 0)), (p(-10, 0), p(-9, 0))));
    assert!(!does_segment_intersect_line((p(0, 1), p(0, 5)), (p(-10, 0), p(-9, 0))));
    assert!(!does_segment_intersect_line((p(0, -1), p(40, -5)), (p(-10, 0), p(-9, 0))));
    assert!(does_segment_intersect_line((p(100, 99), p(100, 101)), (p(0, 0), p(1, 1))));
}

#[test]
fn the_integer_square_root_rounds_down() {
    assert_eq!(integer_sqrt(0), 0);
    assert_eq!(integer_sqrt(1), 1);
    assert_eq!(integer_sqrt(2), 1);
    assert_eq!(integer_sqrt(3), 1);
    assert_eq!(integer_sqrt(4), 2);
    assert_eq!(integer_sqrt(99), 9);
    assert_eq!(integer_sqrt(100), 10);
    assert_eq!(integer_sqrt(1_000_000_000_000_000_000_000_000_000_000), 1_000_000_000_000_000);
    assert_eq!(integer_sqrt(u128::MAX), u64::MAX);
    for n in 0u128..2000 {
        let r = integer_sqrt(n) as u128;
        assert!(r * r <= n && n < (r + 1) * (r + 1));
    }
}

#[test]
fn a_displacement_is_scaled_to_the_length_asked_for() {
    assert_eq!(normalize_vector(p(3, 4), 10), p(6, 8));
    assert_eq!(normalize_vector(p(-3, 4), 5), p(-3, 4));
    assert_eq!(normalize_vector(p(5, 12), 13), p(5, 12));
    assert_eq!(normalize_vector(p(1, 0), 5), p(5, 0));
    assert_eq!(normalize_vector(p(0, -7), 3), p(0, -3));
    assert_eq!(normalize_vector(p(300, 400), 10), p(6, 8));
    assert_eq!(normalize_vector(p(3, 4), 0), p(0, 0));
}

#[test]
fn scaling_rounds_each_component_toward_zero() {
    assert_eq!(normalize_vector(p(1, 1), 10), p(7, 7));
    assert_eq!(normalize_vector(p(-1, -1), 10), p(-7, -7));
    assert_eq!(normalize_vector(p(1, -1), 10), p(7, -7));
    assert_eq!(normalize_vector(p(1, -1), 1), p(0, 0));
    assert_eq!(normalize_vector(p(-1, 1), 1 << 30), p(-759250124, 759250124));
}

#[test]
fn scaling_works_at_the_limits() {
    let limit: i64 = 1 << 32;
    assert_eq!(normalize_vector(p(limit, limit), u32::MAX), p(3037000499, 3037000499));
    assert_eq!(normalize_vector(p(-limit, 1), u32::MAX), p(-4294967294, 0));
    assert_eq!(normalize_vector(p(limit, 0), u32::MAX), p(4294967295, 0));
}

#[test]
fn scaling_keeps_only_the_direction() {
    for length in [1u32, 10, 1000, 1 << 30] {
        assert_eq!(normalize_vector(p(3, -7), length), normalize_vector(p(30, -70), length));
        assert_eq!(normalize_vector(p(-2, 5), length), normalize_vector(p(-14, 35), length));
    }
}

#[test]
fn a_scaled_displacement_stays_on_its_line_to_within_a_grid_step() {
    let v = p(3200, 1234);
    let q = normalize_vector(v, 640);
    assert_eq!(q, p(597, 230));
    let cross = q.x * v.y - q.y * v.x;
    assert!(cross.abs() < v.x.abs().max(v.y.abs()));
    assert!(q.x * v.x + q.y * v.y >= 0);
    let length_sq = q.x * q.x + q.y * q.y;
    assert!(638 * 638 < length_sq && length_sq <= 640 * 640);
}

#[test]
fn the_frame_of_a_cap_is_perpendicular_to_its_edge() {
    let cases = [
        ((0, 0), (50, 0), (0, -10), Sweep::Increasing),
        ((50, 0), (0, 0), (0, -10), Sweep::Decreasing),
        ((0, 0), (0, 50), (10, 0), Sweep::Increasing),
        ((0, 50), (0, 0), (10, 0), Sweep::Decreasing),
        ((0, 0), (30, 40), (8, -6), Sweep::Increasing),
        ((30, 40), (0, 0), (8, -6), Sweep::Decreasing),
        ((0, 0), (-30, 40), (8, 6), Sweep::Increasing),
        ((0, 0), (7, -1), (1, 9), Sweep::Decreasing),
    ];
    for (end, neighbour, offset, sweep) in cases {
        let frame =
            perpendicular_offset_and_direction(p(end.0, end.1), p(neighbour.0, neighbour.1), 10);
        assert_eq!(frame, (p(offset.0, offset.1), sweep));
    }
    let wide = perpendicular_offset_and_direction(p(0, 0), p(7, -1), 1000);
    assert_eq!(wide, (p(141, 989), Sweep::Decreasing));
}
