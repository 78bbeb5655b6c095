use egui::{Pos2, Vec2};
use polygon_editor::point::Point;

fn square() -> Vec<Point> {
    vec![
        Point::new(Pos2::new(0.0, 0.0)),
        Point::new(Pos2::new(10.0, 0.0)),
        Point::new(Pos2::new(10.0, 10.0)),
        Point::new(Pos2::new(0.0, 10.0)),
    ]
}

fn positions(points: &[Point]) -> Vec<Pos2> {
    points.iter().map(|p| *p.pos()).collect()
}

#[test]
fn neighbours_wrap_around() {
    let points = square();
    assert_eq!(Point::get_next_index(&points, 0), 1);
    assert_eq!(Point::get_next_index(&points, 3), 0);
    assert_eq!(Point::get_previous_index(&points, 0), 3);
    assert_eq!(Point::get_previous_index(&points, 2), 1);
}

#[test]
fn middle_point_is_half_way() {
    let points = square();
    assert_eq!(Point::get_middle_point(&points[1], &points[2]), Pos2::new(10.0, 5.0));
    assert_eq!(Point::get_middle_point(&points[3], &points[0]), Pos2::new(0.0, 5.0));
}

#[test]
fn splitting_an_edge_clears_it_and_adds_its_middle() {
    let mut points = square();
    points[1].apply_horizontal_constraint();
    points[1].init_bezier_data([Pos2::new(1.0, 1.0), Pos2::new(2.0, 2.0)]);
    Point::add_on_edge(&mut points, 1);
    assert_eq!(points.len(), 5);
    assert_eq!(*points[2].pos(), Pos2::new(10.0, 5.0));
    assert!(!points[1].has_constraint());
    assert!(!points[1].is_start_of_bezier_segment());
    assert!(!points[2].has_constraint());
    assert_eq!(*points[3].pos(), Pos2::new(10.0, 10.0));
}

#[test]
fn splitting_the_closing_edge_puts_the_new_vertex_first() {
    let mut points = square();
    Point::add_on_edge(&mut points, 3);
    assert_eq!(points.len(), 5);
    assert_eq!(*points[0].pos(), Pos2::new(0.0, 5.0));
    assert_eq!(*points[1].pos(), Pos2::new(0.0, 0.0));
    assert_eq!(*points[4].pos(), Pos2::new(0.0, 10.0));
}

#[test]
fn splitting_and_removing_restores_the_positions() {
    let untouched = square();
    for edge in 0..4 {
        let mut points = square();
        Point::add_on_edge(&mut points, edge);
        let inserted = Point::get_next_index(&untouched, edge);
        Point::remove_at(&mut points, inserted);
        assert_eq!(positions(&points), positions(&untouched));
    }
}

#[test]
fn removing_a_vertex_clears_the_edge_that_led_to_it() {
    let mut points = square();
    points[0].apply_width_constraint(10);
    points[1].apply_vertical_constraint();
    Point::remove_at(&mut points, 1);
    assert_eq!(points.len(), 3);
    assert!(!points[0].has_constraint());
    assert_eq!(positions(&points), vec![Pos2::new(0.0, 0.0), Pos2::new(10.0, 10.0), Pos2::new(0.0, 10.0)]);
}

#[test]
fn a_triangle_keeps_its_vertices() {
    let mut points = square();
    Point::remove_at(&mut points, 0);
    assert_eq!(points.len(), 3);
    points[2].apply_horizontal_constraint();
    let before = positions(&points);
    Point::remove_at(&mut points, 0);
    assert_eq!(points.len(), 3);
    assert_eq!(positions(&points), before);
    assert!(points[2].has_horizontal_constraint());
}

#[test]
fn translation_moves_vertices_and_handles_alike() {
    let mut points = square();
    points[2].init_bezier_data([Pos2::new(8.0, 12.0), Pos2::new(2.0, 12.0)]);
    Point::update_position_all(&mut points, Vec2::new(1.5, -2.0));
    assert_eq!(
        positions(&points),
        vec![Pos2::new(1.5, -2.0), Pos2::new(11.5, -2.0), Pos2::new(11.5, 8.0), Pos2::new(1.5, 8.0)]
    );
    let handles = *points[2].bezier_data().unwrap().inner_points();
    assert_eq!(handles, [Pos2::new(9.5, 10.0), Pos2::new(3.5, 10.0)]);
    assert_eq!(points[0].pos().distance(*points[1].pos()), 10.0);
}

#[test]
fn neighbouring_constraints_are_seen() {
    let mut points = square();
    points[0].apply_vertical_constraint();
    points[2].apply_horizontal_constraint();
    assert!(Point::neighour_edges_have_vertical_constraint(&points, 1));
    assert!(Point::neighour_edges_have_horizontal_constraint(&points, 1));
    assert!(!Point::neighour_edges_have_vertical_constraint(&points, 0));
    assert!(Point::neighour_edges_have_vertical_constraint(&points, 3));
    assert!(points[0].has_vertical_constraint());
    assert!(!points[0].has_width_constraint());
    points[0].remove_constraint();
    assert!(!points[0].has_constraint());
}

#[test]
fn a_new_curve_gets_its_handles_beside_the_edge() {
    let start = Point::new(Pos2::new(0.0, 0.0));
    let end = Point::new(Pos2::new(30.0, 0.0));
    let [near, far] = Point::get_points_between_for_initial_bezier(&start, &end);
    assert!((near.x - 10.0).abs() < 1e-3 && (near.y - 20.0).abs() < 1e-3);
    assert!((far.x - 20.0).abs() < 1e-3 && (far.y - 20.0).abs() < 1e-3);
}
