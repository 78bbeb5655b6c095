use egui::Pos2;
use polygon_editor::bezier::BezierData;
use polygon_editor::point::ContinuityType::{self, C1, G0, G1};
use polygon_editor::point::EdgeConstraint::{self, ConstWidth, Horizontal, Vertical};
use polygon_editor::point::Point;

fn point(
    x: f32,
    y: f32,
    constraint: Option<EdgeConstraint>,
    handles: Option<[(f32, f32); 2]>,
    continuity_type: ContinuityType,
) -> Point {
    Point {
        pos: Pos2::new(x, y),
        constraint,
        bezier_data: handles
            .map(|h| BezierData::new([Pos2::new(h[0].0, h[0].1), Pos2::new(h[1].0, h[1].1)])),
        continuity_type,
    }
}

/// A contour with every kind of edge and of continuity.
fn contour() -> Vec<Point> {
    vec![
        point(118.8, 359.2, None, None, C1),
        point(132.2, 439.5, None, Some([(173.2, 493.4), (221.1, 492.4)]), G0),
        point(244.6, 449.1, None, None, C1),
        point(314.9, 319.0, None, None, C1),
        point(362.4, 449.2, None, Some([(378.3, 492.7), (430.5, 502.1)]), C1),
        point(481.5, 451.3, None, Some([(519.4, 413.6), (425.0, 419.1)]), G1),
        point(425.0, 361.5, Some(Vertical), None, G1),
        point(425.0, 259.1, Some(ConstWidth(123)), None, C1),
        point(524.6, 187.0, Some(ConstWidth(107)), None, C1),
        point(494.6, 84.3, Some(Horizontal), None, C1),
        point(318.8, 84.3, Some(Vertical), None, C1),
        point(318.8, 239.0, None, None, C1),
        point(261.8, 89.8, None, Some([(242.8, 40.0), (102.6, 81.6)]), C1),
        point(145.4, 104.4, None, Some([(188.2, 127.3), (125.8, 217.3)]), C1),
        point(153.1, 217.3, Some(Horizontal), None, C1),
        point(235.2, 217.3, None, None, C1),
        point(110.8, 294.7, Some(ConstWidth(79)), None, C1),
        point(182.0, 329.0, Some(ConstWidth(70)), None, C1),
    ]
}

fn all_finite(points: &[Point]) -> bool {
    points.iter().all(|p| {
        p.pos().is_finite()
            && p.bezier_data().map_or(true, |b| b.inner_points().iter().all(|h| h.is_finite()))
    })
}

fn same_shape(a: &[Point], b: &[Point]) -> bool {
    a.len() == b.len()
        && a.iter().zip(b).all(|(p, q)| {
            p.has_constraint() == q.has_constraint()
                && p.has_horizontal_constraint() == q.has_horizontal_constraint()
                && p.has_vertical_constraint() == q.has_vertical_constraint()
                && p.is_start_of_bezier_segment() == q.is_start_of_bezier_segment()
                && *p.continuity_type() == *q.continuity_type()
        })
}

#[test]
fn every_vertex_can_be_moved() {
    let before = contour();
    for index in 0..before.len() {
        let mut points = contour();
        let target = *points[index].pos() + egui::Vec2::new(7.0, -5.0);
        Point::update_position(&mut points, index, target);
        assert!(all_finite(&points), "vertex {index}");
        assert!(same_shape(&before, &points), "vertex {index}");
    }
}

#[test]
fn every_handle_can_be_moved() {
    let before = contour();
    for index in 0..before.len() {
        for handle in 0..2 {
            let mut points = contour();
            let target = *points[index].pos() + egui::Vec2::new(11.0, 13.0);
            let moved = Point::move_curve_handle(&mut points, index, handle, target);
            assert_eq!(moved.is_ok(), before[index].is_start_of_bezier_segment());
            assert!(all_finite(&points), "vertex {index}, handle {handle}");
            assert!(same_shape(&before, &points));
            if moved.is_err() {
                let positions: Vec<Pos2> = points.iter().map(|p| *p.pos()).collect();
                let untouched: Vec<Pos2> = before.iter().map(|p| *p.pos()).collect();
                assert_eq!(positions, untouched);
            }
        }
    }
}

/// The same contour with one more plain vertex, between the end of a curve
/// and a plain vertex. Neither walk passes it, so none comes round.
fn open_contour() -> Vec<Point> {
    let mut points = contour();
    points.insert(3, point(280.0, 400.0, None, None, G0));
    points
}

fn axis_edges(points: &[Point]) -> Vec<usize> {
    (0..points.len())
        .filter(|&i| points[i].has_horizontal_constraint() || points[i].has_vertical_constraint())
        .collect()
}

// The edges of constant width compute positions anew: what an edit leaves
// is exact up to their rounding.
const ROUNDING: f32 = 1e-3;

#[test]
fn a_moved_start_takes_its_horizontal_and_vertical_edges_along() {
    for index in axis_edges(&open_contour()) {
        let mut points = open_contour();
        let target = *points[index].pos() + egui::Vec2::new(3.0, 4.0);
        Point::update_position(&mut points, index, target);
        let end = Point::get_next_index(&points, index);
        assert_eq!(*points[index].pos(), target);
        if points[index].has_horizontal_constraint() {
            assert!((points[end].pos().y - target.y).abs() < ROUNDING, "edge {index}");
        } else {
            assert!((points[end].pos().x - target.x).abs() < ROUNDING, "edge {index}");
        }
    }
}

#[test]
fn a_moved_end_takes_its_horizontal_and_vertical_edges_along() {
    for index in axis_edges(&open_contour()) {
        let mut points = open_contour();
        let end = Point::get_next_index(&points, index);
        let target = *points[end].pos() + egui::Vec2::new(-2.0, 6.0);
        Point::update_position(&mut points, end, target);
        let start = *points[index].pos();
        let end = *points[end].pos();
        assert_eq!(end, target);
        if points[index].has_horizontal_constraint() {
            assert!((start.y - end.y).abs() < ROUNDING, "edge {index}");
        } else {
            assert!((start.x - end.x).abs() < ROUNDING, "edge {index}");
        }
    }
}

#[test]
fn constant_widths_are_kept_after_a_move() {
    let mut points = contour();
    Point::update_position(&mut points, 8, Pos2::new(530.0, 180.0));
    let width = points[8].pos().distance(*points[9].pos());
    assert!((width - 107.0).abs() < 1e-2, "{width}");
    let width = points[7].pos().distance(*points[8].pos());
    assert!((width - 123.0).abs() < 1e-2, "{width}");
}

#[test]
fn translation_keeps_distances() {
    let before = contour();
    let mut points = contour();
    Point::update_position_all(&mut points, egui::Vec2::new(64.0, -32.0));
    for i in 0..points.len() {
        let j = Point::get_next_index(&points, i);
        let was = before[i].pos().distance(*before[j].pos());
        let is = points[i].pos().distance(*points[j].pos());
        assert!((was - is).abs() < 1e-3);
    }
}
