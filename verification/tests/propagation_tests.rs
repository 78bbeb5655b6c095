use egui::Pos2;
use polygon_editor::bezier::BezierData;
use polygon_editor::point::{ContinuityType, EdgeConstraint, Point};
use polygon_editor::propagation::EditError;

fn vertex(x: f32, y: f32) -> Point {
    Point::new(Pos2::new(x, y))
}

fn curve_start(x: f32, y: f32, near: (f32, f32), far: (f32, f32)) -> Point {
    let mut p = vertex(x, y);
    p.init_bezier_data([Pos2::new(near.0, near.1), Pos2::new(far.0, far.1)]);
    p
}

fn close(a: Pos2, x: f32, y: f32) -> bool {
    (a.x - x).abs() < 1e-3 && (a.y - y).abs() < 1e-3
}

fn handles(p: &Point) -> [Pos2; 2] {
    *p.bezier_data().unwrap().inner_points()
}

fn triangle() -> Vec<Point> {
    vec![vertex(0.0, 0.0), vertex(10.0, 0.0), vertex(5.0, 10.0)]
}

#[test]
fn moving_a_vertex_of_a_free_contour_moves_nothing_else() {
    let mut points = triangle();
    Point::update_position(&mut points, 1, Pos2::new(7.0, -2.0));
    assert_eq!(*points[0].pos(), Pos2::new(0.0, 0.0));
    assert_eq!(*points[1].pos(), Pos2::new(7.0, -2.0));
    assert_eq!(*points[2].pos(), Pos2::new(5.0, 10.0));
}

#[test]
fn vertical_edge_follows_its_start() {
    let mut points = triangle();
    points[0].apply_vertical_constraint();
    Point::update_position(&mut points, 0, Pos2::new(3.0, 3.0));
    assert_eq!(*points[0].pos(), Pos2::new(3.0, 3.0));
    assert_eq!(points[1].pos().x, 3.0);
    assert_eq!(points[1].pos().y, 0.0);
    assert_eq!(*points[2].pos(), Pos2::new(5.0, 10.0));
}

#[test]
fn vertical_edge_follows_its_end() {
    let mut points = triangle();
    points[0].apply_vertical_constraint();
    Point::update_position(&mut points, 1, Pos2::new(8.0, 1.0));
    assert_eq!(*points[1].pos(), Pos2::new(8.0, 1.0));
    assert_eq!(*points[0].pos(), Pos2::new(8.0, 0.0));
}

#[test]
fn horizontal_edge_follows_either_endpoint() {
    let mut points = triangle();
    points[1].apply_horizontal_constraint();
    Point::update_position(&mut points, 1, Pos2::new(9.0, 4.0));
    assert_eq!(*points[2].pos(), Pos2::new(5.0, 4.0));
    Point::update_position(&mut points, 2, Pos2::new(6.0, 7.0));
    assert_eq!(*points[1].pos(), Pos2::new(9.0, 7.0));
    assert_eq!(*points[0].pos(), Pos2::new(0.0, 0.0));
}

#[test]
fn constant_width_keeps_the_direction_and_forces_the_length() {
    let mut points = vec![vertex(0.0, 0.0), vertex(3.0, 4.0), vertex(-5.0, 8.0), vertex(-9.0, 1.0)];
    points[0].apply_width_constraint(10);
    Point::update_position(&mut points, 0, Pos2::new(0.0, 0.0));
    assert!(close(*points[1].pos(), 6.0, 8.0));
    assert!((points[0].pos().distance(*points[1].pos()) - 10.0).abs() < 1e-3);
    Point::update_position(&mut points, 1, Pos2::new(0.0, 5.0));
    assert!(close(*points[0].pos(), 0.0, -5.0));
}

#[test]
fn constant_width_leaves_coincident_endpoints_alone() {
    let mut points = vec![vertex(1.0, 1.0), vertex(1.0, 1.0), vertex(5.0, 8.0), vertex(-9.0, 1.0)];
    points[0].apply_width_constraint(10);
    Point::update_position(&mut points, 0, Pos2::new(1.0, 1.0));
    assert_eq!(*points[1].pos(), Pos2::new(1.0, 1.0));
    assert_eq!(*points[0].pos(), Pos2::new(1.0, 1.0));
}

#[test]
fn a_chain_of_constraints_is_followed_to_its_end() {
    let mut points =
        vec![vertex(0.0, 0.0), vertex(10.0, 0.0), vertex(10.0, 10.0), vertex(0.0, 10.0), vertex(-5.0, 5.0)];
    points[0].apply_horizontal_constraint();
    points[1].apply_vertical_constraint();
    Point::update_position(&mut points, 0, Pos2::new(1.0, 2.0));
    assert_eq!(*points[1].pos(), Pos2::new(10.0, 2.0));
    assert_eq!(*points[2].pos(), Pos2::new(10.0, 10.0));
    assert_eq!(*points[3].pos(), Pos2::new(0.0, 10.0));
    assert_eq!(*points[4].pos(), Pos2::new(-5.0, 5.0));
}

#[test]
fn moving_a_vertex_to_where_it_is_changes_nothing() {
    let mut points =
        vec![vertex(0.0, 0.0), vertex(10.0, 0.0), vertex(10.0, 10.0), vertex(0.0, 10.0), vertex(-5.0, 5.0)];
    points[0].apply_horizontal_constraint();
    points[1].apply_vertical_constraint();
    let before: Vec<Pos2> = points.iter().map(|p| *p.pos()).collect();
    Point::update_position(&mut points, 1, Pos2::new(10.0, 0.0));
    let after: Vec<Pos2> = points.iter().map(|p| *p.pos()).collect();
    assert_eq!(before, after);
}

#[test]
fn tangent_continuity_turns_the_near_handle_with_the_straight_edge() {
    let mut points = vec![
        vertex(0.0, 0.0),
        curve_start(10.0, 0.0, (15.0, 0.0), (20.0, 5.0)),
        vertex(20.0, 10.0),
        vertex(0.0, 10.0),
    ];
    points[1].apply_G1();
    Point::update_position(&mut points, 0, Pos2::new(10.0, -10.0));
    let [near, far] = handles(&points[1]);
    assert!(close(near, 10.0, 5.0));
    assert!((near.distance(*points[1].pos()) - 5.0).abs() < 1e-3);
    assert_eq!(far, Pos2::new(20.0, 5.0));
    assert_eq!(*points[1].pos(), Pos2::new(10.0, 0.0));
    assert_eq!(*points[2].pos(), Pos2::new(20.0, 10.0));
}

#[test]
fn smooth_continuity_puts_the_vertex_three_times_as_far_as_the_handle() {
    let mut points = vec![
        curve_start(0.0, 0.0, (2.0, 2.0), (8.0, 2.0)),
        vertex(10.0, 0.0),
        vertex(20.0, 0.0),
        vertex(10.0, 20.0),
    ];
    points[1].apply_C1();
    let moved = Point::move_curve_handle(&mut points, 0, 1, Pos2::new(10.0, -3.0));
    assert_eq!(moved, Ok(()));
    assert_eq!(handles(&points[0])[1], Pos2::new(10.0, -3.0));
    assert!(close(*points[2].pos(), 10.0, 9.0));
    assert_eq!(*points[1].pos(), Pos2::new(10.0, 0.0));
}

#[test]
fn smooth_continuity_puts_the_handle_at_a_third_of_the_straight_edge() {
    let mut points = vec![
        curve_start(0.0, 0.0, (2.0, 2.0), (8.0, 2.0)),
        vertex(10.0, 0.0),
        vertex(20.0, 0.0),
        vertex(10.0, 20.0),
    ];
    points[1].apply_C1();
    Point::update_position(&mut points, 2, Pos2::new(10.0, 9.0));
    assert!(close(handles(&points[0])[1], 10.0, -3.0));
    assert_eq!(*points[1].pos(), Pos2::new(10.0, 0.0));
}

#[test]
fn smooth_continuity_between_two_curves_keeps_the_length() {
    let mut points = vec![
        curve_start(0.0, 0.0, (2.0, 2.0), (8.0, 2.0)),
        curve_start(10.0, 0.0, (12.0, 0.0), (18.0, 5.0)),
        vertex(20.0, 0.0),
        vertex(10.0, 20.0),
    ];
    points[1].apply_C1();
    let moved = Point::move_curve_handle(&mut points, 1, 0, Pos2::new(10.0, 4.0));
    assert_eq!(moved, Ok(()));
    assert!(close(handles(&points[0])[1], 10.0, -4.0));
}

#[test]
fn a_moved_handle_is_snapped_to_the_horizontal_edge_across_the_vertex() {
    let mut points = vec![
        curve_start(0.0, 0.0, (2.0, 2.0), (8.0, 2.0)),
        vertex(10.0, 0.0),
        vertex(20.0, 0.0),
        vertex(10.0, 20.0),
    ];
    points[1].apply_G1();
    points[1].apply_horizontal_constraint();
    let moved = Point::move_curve_handle(&mut points, 0, 1, Pos2::new(6.0, 5.0));
    assert_eq!(moved, Ok(()));
    assert_eq!(handles(&points[0])[1], Pos2::new(6.0, 0.0));
    assert_eq!(*points[1].pos(), Pos2::new(10.0, 0.0));
    assert!(close(*points[2].pos(), 20.0, 0.0));
}

#[test]
fn moving_a_handle_of_a_straight_edge_is_refused() {
    let mut points = triangle();
    let moved = Point::move_curve_handle(&mut points, 0, 0, Pos2::new(1.0, 1.0));
    assert_eq!(moved, Err(EditError::MissingCurve));
    assert_eq!(*points[0].pos(), Pos2::new(0.0, 0.0));
    assert!(points[0].bezier_data().is_none());
}

#[test]
fn a_free_curve_is_turned_and_scaled_with_its_endpoint() {
    let mut points = vec![
        curve_start(10.0, 0.0, (8.0, 1.0), (2.0, 1.0)),
        vertex(0.0, 0.0),
        vertex(0.0, -30.0),
        vertex(30.0, -30.0),
    ];
    Point::update_position(&mut points, 0, Pos2::new(0.0, 20.0));
    let [near, far] = handles(&points[0]);
    assert!(close(near, -2.0, 16.0));
    assert!(close(far, -2.0, 4.0));
    assert_eq!(*points[1].pos(), Pos2::new(0.0, 0.0));
}

#[test]
fn a_free_curve_stays_when_its_endpoint_does_not_leave() {
    let mut points = vec![
        curve_start(10.0, 0.0, (8.0, 1.0), (2.0, 1.0)),
        vertex(0.0, 0.0),
        vertex(0.0, -30.0),
        vertex(30.0, -30.0),
    ];
    Point::update_position(&mut points, 0, Pos2::new(10.0, 0.0));
    assert_eq!(handles(&points[0]), [Pos2::new(8.0, 1.0), Pos2::new(2.0, 1.0)]);
}

#[test]
fn the_shape_of_the_contour_survives_an_edit() {
    let mut points = vec![
        curve_start(0.0, 0.0, (2.0, 2.0), (8.0, 2.0)),
        vertex(10.0, 0.0),
        vertex(20.0, 0.0),
        vertex(10.0, 20.0),
    ];
    points[1].apply_C1();
    points[2].apply_width_constraint(7);
    Point::update_position(&mut points, 1, Pos2::new(11.0, 1.0));
    assert_eq!(points.len(), 4);
    assert!(points[0].is_start_of_bezier_segment());
    assert!(*points[1].continuity_type() == ContinuityType::C1);
    assert!(matches!(points[2].constraint(), Some(EdgeConstraint::ConstWidth(7))));
    assert!(Point::is_end_of_bezier_segment(&points, 1));
    assert!(Point::is_part_of_bezier_segment(&points, 0));
    assert!(!Point::is_part_of_bezier_segment(&points, 3));
}

#[test]
fn handles_are_read_and_written_by_index() {
    let mut data = BezierData::new([Pos2::new(1.0, 2.0), Pos2::new(3.0, 4.0)]);
    data.update_inner_point_position(1, Pos2::new(5.0, 6.0));
    assert_eq!(*data.inner_points(), [Pos2::new(1.0, 2.0), Pos2::new(5.0, 6.0)]);
}

#[test]
fn the_constraint_rule_on_its_own() {
    let fixed = Pos2::new(2.0, 3.0);
    let moved = Pos2::new(10.0, 9.0);
    assert_eq!(EdgeConstraint::Horizontal.apply(fixed, moved), Pos2::new(10.0, 3.0));
    assert_eq!(EdgeConstraint::Vertical.apply(fixed, moved), Pos2::new(2.0, 9.0));
    let kept = EdgeConstraint::ConstWidth(5).apply(fixed, moved);
    assert!(close(kept, 6.0, 6.0));
    assert!((kept.distance(fixed) - 5.0).abs() < 1e-3);
    assert_eq!(EdgeConstraint::ConstWidth(5).apply(fixed, fixed), fixed);
}

#[test]
fn zeros_of_either_sign_are_the_same_place() {
    let fixed = Pos2::new(0.0, 1.0);
    let moved = Pos2::new(-0.0, 1.0);
    let kept = EdgeConstraint::ConstWidth(5).apply(fixed, moved);
    assert_eq!(kept.x.to_bits(), moved.x.to_bits());
    assert_eq!(kept.y, 1.0);
}

#[test]
fn a_position_that_is_no_number_is_at_no_place() {
    let fixed = Pos2::new(f32::NAN, 1.0);
    let kept = EdgeConstraint::ConstWidth(5).apply(fixed, fixed);
    assert!(kept.x.is_nan());
    assert_eq!(EdgeConstraint::Horizontal.apply(Pos2::new(0.0, 2.0), fixed).y, 2.0);
}

#[test]
fn a_vertex_and_its_handles_are_changed_in_place() {
    let mut p = curve_start(1.0, 2.0, (3.0, 4.0), (5.0, 6.0));
    p.pos_mut().x = 7.0;
    assert_eq!(*p.pos(), Pos2::new(7.0, 2.0));
    p.bezier_data_mut().unwrap().inner_points_mut()[0] = Pos2::new(8.0, 9.0);
    assert_eq!(handles(&p), [Pos2::new(8.0, 9.0), Pos2::new(5.0, 6.0)]);
    p.remove_bezier_data();
    assert!(p.bezier_data_mut().is_none());
    p.apply_C1();
    p.apply_G0();
    assert!(*p.continuity_type() == ContinuityType::G0);
}

#[test]
fn tangent_continuity_keeps_a_handle_level_with_a_horizontal_edge() {
    // The curve arrives at vertex 1, which asks for G1 and starts a
    // horizontal edge: the handle before it stays on the line of the edge.
    let mut points = vec![
        curve_start(0.0, 0.0, (2.0, 2.0), (8.0, 3.0)),
        vertex(10.0, 0.0),
        vertex(20.0, 0.0),
        vertex(10.0, 20.0),
    ];
    points[1].apply_G1();
    points[1].apply_horizontal_constraint();
    Point::update_position(&mut points, 1, Pos2::new(10.0, 5.0));
    assert_eq!(*points[1].pos(), Pos2::new(10.0, 5.0));
    assert_eq!(points[2].pos().y, 5.0);
    let far = handles(&points[0])[1];
    assert!((far.y - 5.0).abs() < 1e-3);
}

#[test]
fn an_edit_far_from_a_curve_leaves_it_alone() {
    let mut points = vec![
        curve_start(0.0, 0.0, (2.0, 2.0), (8.0, 2.0)),
        vertex(10.0, 0.0),
        vertex(20.0, 0.0),
        vertex(30.0, 10.0),
        vertex(20.0, 20.0),
        vertex(10.0, 20.0),
    ];
    points[0].apply_G1();
    points[1].apply_C1();
    Point::update_position(&mut points, 3, Pos2::new(31.0, 11.0));
    assert_eq!(handles(&points[0]), [Pos2::new(2.0, 2.0), Pos2::new(8.0, 2.0)]);
    assert_eq!(*points[2].pos(), Pos2::new(20.0, 0.0));
    assert_eq!(*points[4].pos(), Pos2::new(20.0, 20.0));
    assert_eq!(*points[3].pos(), Pos2::new(31.0, 11.0));
}

#[test]
fn every_edge_constrained_still_comes_to_an_end() {
    let mut points = vec![vertex(0.0, 0.0), vertex(10.0, 0.0), vertex(10.0, 10.0), vertex(0.0, 10.0)];
    points[0].apply_horizontal_constraint();
    points[1].apply_vertical_constraint();
    points[2].apply_horizontal_constraint();
    points[3].apply_vertical_constraint();
    Point::update_position(&mut points, 0, Pos2::new(2.0, 3.0));
    assert_eq!(points.len(), 4);
    assert_eq!(*points[0].pos(), Pos2::new(2.0, 3.0));
    assert_eq!(*points[1].pos(), Pos2::new(10.0, 3.0));
    assert_eq!(*points[2].pos(), Pos2::new(10.0, 10.0));
    assert_eq!(*points[3].pos(), Pos2::new(2.0, 10.0));
}

#[test]
fn the_walk_to_the_left_runs_first() {
    let mut points = triangle();
    points[0].apply_vertical_constraint();
    points[1].apply_horizontal_constraint();
    points[2].apply_vertical_constraint();
    Point::update_position(&mut points, 0, Pos2::new(3.0, 3.0));
    assert_eq!(*points[0].pos(), Pos2::new(3.0, 3.0));
    assert_eq!(*points[1].pos(), Pos2::new(3.0, 10.0));
    assert_eq!(*points[2].pos(), Pos2::new(3.0, 10.0));
}

#[test]
fn the_end_of_an_edge_of_constant_width_follows_at_that_width() {
    let mut points = vec![vertex(0.0, 0.0), vertex(10.0, 0.0), vertex(10.0, 10.0), vertex(0.0, 10.0)];
    points[0].apply_width_constraint(5);
    Point::update_position(&mut points, 0, Pos2::new(4.0, -8.0));
    assert_eq!(*points[0].pos(), Pos2::new(4.0, -8.0));
    assert!(close(*points[1].pos(), 7.0, -4.0));
    assert_eq!(*points[2].pos(), Pos2::new(10.0, 10.0));
    assert_eq!(*points[3].pos(), Pos2::new(0.0, 10.0));
}

#[test]
fn tangent_continuity_puts_the_handle_opposite_the_new_edge_at_its_own_length() {
    let mut points = vec![
        vertex(0.0, 0.0),
        curve_start(10.0, 0.0, (13.0, 4.0), (10.0, 8.0)),
        vertex(10.0, 10.0),
        vertex(-5.0, 5.0),
    ];
    points[1].apply_G1();
    Point::update_position(&mut points, 0, Pos2::new(10.0, -10.0));
    let [near, far] = handles(&points[1]);
    assert!(close(near, 10.0, 5.0));
    assert_eq!(far, Pos2::new(10.0, 8.0));
    assert_eq!(*points[0].pos(), Pos2::new(10.0, -10.0));
    assert_eq!(*points[1].pos(), Pos2::new(10.0, 0.0));
    assert_eq!(*points[2].pos(), Pos2::new(10.0, 10.0));
    assert_eq!(*points[3].pos(), Pos2::new(-5.0, 5.0));
}

#[test]
fn on_a_triangle_the_walk_to_the_left_comes_round_to_the_moved_vertex() {
    // The walk to the left runs first and reaches the vertex after the
    // moved one, whose tangent continuity then puts the moved vertex
    // opposite the handle, at its distance from the corner.
    let mut points = vec![
        vertex(0.0, 0.0),
        curve_start(10.0, 0.0, (13.0, 4.0), (10.0, 8.0)),
        vertex(10.0, 10.0),
    ];
    points[1].apply_G1();
    Point::update_position(&mut points, 0, Pos2::new(10.0, -10.0));
    assert!(close(*points[0].pos(), 4.0, -8.0));
    assert!(close(handles(&points[1])[0], 13.0, 4.0));
    assert_eq!(*points[1].pos(), Pos2::new(10.0, 0.0));
    assert_eq!(*points[2].pos(), Pos2::new(10.0, 10.0));
}

#[test]
fn smooth_continuity_after_the_far_end_of_the_straight_edge_moved() {
    let mut points = vec![
        curve_start(0.0, 0.0, (3.0, -4.0), (7.0, -4.0)),
        vertex(10.0, 0.0),
        vertex(20.0, 5.0),
        vertex(5.0, 20.0),
    ];
    points[1].apply_C1();
    Point::update_position(&mut points, 2, Pos2::new(10.0, 6.0));
    let [near, far] = handles(&points[0]);
    assert!(close(far, 10.0, -2.0));
    assert_eq!(near, Pos2::new(3.0, -4.0));
    assert_eq!(*points[0].pos(), Pos2::new(0.0, 0.0));
    assert_eq!(*points[1].pos(), Pos2::new(10.0, 0.0));
    assert_eq!(*points[2].pos(), Pos2::new(10.0, 6.0));
    assert_eq!(*points[3].pos(), Pos2::new(5.0, 20.0));
}

#[test]
fn smooth_continuity_after_the_far_handle_moved() {
    let mut points = vec![
        curve_start(0.0, 0.0, (3.0, -4.0), (10.0, -2.0)),
        vertex(10.0, 0.0),
        vertex(20.0, 5.0),
        vertex(5.0, 20.0),
    ];
    points[1].apply_C1();
    Point::update_position_after_control_point_moved(&mut points, 0, 1);
    assert!(close(*points[2].pos(), 10.0, 6.0));
    assert_eq!(handles(&points[0]), [Pos2::new(3.0, -4.0), Pos2::new(10.0, -2.0)]);
    assert_eq!(*points[0].pos(), Pos2::new(0.0, 0.0));
    assert_eq!(*points[1].pos(), Pos2::new(10.0, 0.0));
    assert_eq!(*points[3].pos(), Pos2::new(5.0, 20.0));
}

#[test]
fn tangent_continuity_between_two_curves_keeps_the_own_length() {
    let mut points = vec![
        curve_start(0.0, 0.0, (2.0, 2.0), (10.0, 4.0)),
        curve_start(10.0, 0.0, (13.0, 0.0), (18.0, 5.0)),
        vertex(20.0, 0.0),
        vertex(10.0, 20.0),
    ];
    points[1].apply_G1();
    Point::update_position_after_control_point_moved(&mut points, 0, 1);
    let near = handles(&points[1])[0];
    assert!(close(near, 10.0, -3.0));
    assert_eq!(handles(&points[0])[1], Pos2::new(10.0, 4.0));
    assert_eq!(*points[1].pos(), Pos2::new(10.0, 0.0));
}
