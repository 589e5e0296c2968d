use jamspace::point::Point;
use jamspace::sketch::Sketch;
use jamspace::tools::{DrawTool, DrawingTool};
use jamspace::vertex::Color;

fn p(x: i64, y: i64) -> Point {
    Point::new(x, y)
}

#[test]
fn a_new_sketch_is_empty_and_idle() {
    let sketch = Sketch::new();
    assert!(sketch.get_defining_points().is_empty());
    assert!(!sketch.is_drawing());
    assert!(sketch.preview(DrawTool::Pen, 10, Color::rgb(0, 255, 0)).is_none());
}

#[test]
fn pressing_samples_the_first_point() {
    let mut sketch = Sketch::new();
    assert!(sketch.pointer_pressed(p(5, 5)));
    assert!(sketch.is_drawing());
    assert_eq!(sketch.get_defining_points(), &vec![p(5, 5)]);
}

#[test]
fn pressing_again_on_the_last_point_adds_nothing() {
    let mut sketch = Sketch::new();
    assert!(sketch.pointer_pressed(p(5, 5)));
    assert!(!sketch.pointer_pressed(p(5, 5)));
    assert!(sketch.pointer_pressed(p(5, 6)));
    assert_eq!(sketch.get_defining_points(), &vec![p(5, 5), p(5, 6)]);
}

#[test]
fn moving_samples_only_beyond_the_minimum_distance() {
    let mut sketch = Sketch::new();
    sketch.pointer_pressed(p(0, 0));
    assert!(!sketch.pointer_moved(p(6, 8), true, 10));
    assert!(!sketch.pointer_moved(p(10, 0), true, 10));
    assert!(sketch.pointer_moved(p(7, 8), true, 10));
    assert!(!sketch.pointer_moved(p(7, 8), true, 0));
    assert!(sketch.pointer_moved(p(7, 9), true, 0));
    assert_eq!(sketch.get_defining_points(), &vec![p(0, 0), p(7, 8), p(7, 9)]);
}

#[test]
fn moving_samples_nothing_too_early_or_with_the_pointer_up() {
    let mut sketch = Sketch::new();
    assert!(!sketch.pointer_moved(p(100, 100), true, 10));
    assert!(sketch.get_defining_points().is_empty());
    sketch.pointer_pressed(p(0, 0));
    assert!(!sketch.pointer_moved(p(100, 100), false, 10));
    assert!(sketch.pointer_moved(p(100, 100), true, 10));
    assert_eq!(sketch.get_defining_points().len(), 2);
}

#[test]
fn points_out_of_reach_are_not_sampled() {
    let limit: i64 = 1 << 31;
    let mut sketch = Sketch::new();
    assert!(!sketch.pointer_pressed(p(limit + 1, 0)));
    assert!(sketch.is_drawing());
    assert!(sketch.pointer_pressed(p(limit, -limit)));
    assert!(!sketch.pointer_moved(p(0, -limit - 1), true, 10));
    assert!(sketch.pointer_moved(p(-limit, limit), true, u32::MAX));
    assert_eq!(sketch.get_defining_points().len(), 2);
}

#[test]
fn releasing_gives_the_drawing_and_clears_the_sketch() {
    let mut sketch = Sketch::new();
    sketch.pointer_pressed(p(0, 0));
    sketch.pointer_moved(p(50, 0), true, 10);
    sketch.pointer_moved(p(50, 50), true, 10);
    let preview = sketch.preview(DrawTool::Pen, 10, Color::rgb(0, 255, 0));
    let released = sketch.pointer_released(DrawTool::Pen, 10, Color::rgb(255, 0, 0));
    assert!(sketch.get_defining_points().is_empty());
    assert!(!sketch.is_drawing());
    match (preview, released) {
        (Some(DrawingTool::Line(shown)), Some(DrawingTool::Line(kept))) => {
            assert_eq!(shown.get_rendered_points(), kept.get_rendered_points());
            assert_eq!(kept.get_rendered_points().len(), 80);
            assert_eq!(shown.get_color(), Color::rgb(0, 255, 0));
            assert_eq!(kept.get_color(), Color::rgb(255, 0, 0));
        }
        _ => panic!("three points must give a stroke"),
    }
    assert!(sketch.pointer_released(DrawTool::Pen, 10, Color::rgb(255, 0, 0)).is_none());
}

#[test]
fn a_click_without_a_move_gives_a_dot() {
    let mut sketch = Sketch::new();
    sketch.pointer_pressed(p(10, 10));
    match sketch.pointer_released(DrawTool::Pen, 10, Color::rgb(255, 0, 0)) {
        Some(DrawingTool::Dot(dot)) => {
            assert_eq!(dot.get_point(), p(10, 10));
            assert_eq!(dot.get_rendered_vertexes().len(), 66);
        }
        _ => panic!("one point must give a dot"),
    }
}
