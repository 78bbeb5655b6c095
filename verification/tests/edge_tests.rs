use egui::Pos2;
use polygon_editor::edge::{Edge, EdgePointType, EdgeRestriction};
use polygon_editor::point::Point;

fn triangle() -> Vec<Point> {
    vec![
        Point::new(Pos2::new(0.0, 0.0)),
        Point::new(Pos2::new(10.0, 0.0)),
        Point::new(Pos2::new(5.0, 10.0)),
    ]
}

#[test]
fn edges_of_a_triangle_close_the_contour() {
    let edges = Edge::from_points(&triangle());
    assert_eq!(edges.len(), 3);
    assert_eq!((edges[0].start_index, edges[0].end_index), (0, 1));
    assert_eq!((edges[1].start_index, edges[1].end_index), (1, 2));
    assert_eq!((edges[2].start_index, edges[2].end_index), (2, 0));
    assert!(!edges[0].has_restriction());
}

#[test]
fn no_points_no_edges() {
    assert!(Edge::from_points(&[]).is_empty());
}

#[test]
fn the_other_endpoint() {
    let edge = Edge::new(4, 7);
    assert_eq!(edge.take_other_point(4), 7);
    assert_eq!(edge.take_other_point(7), 4);
    assert_eq!(edge.take_other_point(5), 4);
}

#[test]
fn restrictions_are_applied_and_removed() {
    let mut edge = Edge::new(0, 1);
    assert!(edge.restriction().is_none());
    assert!(!edge.has_horizontal_or_vertical_restriction());
    edge.apply_horizontal_restriction();
    assert!(matches!(edge.restriction(), Some(EdgeRestriction::Horizontal)));
    assert!(edge.has_horizontal_or_vertical_restriction());
    edge.apply_vertical_restriction();
    assert!(matches!(edge.restriction(), Some(EdgeRestriction::Vertical)));
    assert!(edge.has_horizontal_or_vertical_restriction());
    edge.apply_width_restriction(12);
    assert!(matches!(edge.restriction(), Some(EdgeRestriction::Width(12))));
    assert!(edge.has_restriction());
    assert!(!edge.has_horizontal_or_vertical_restriction());
    edge.remove_restriction();
    assert!(!edge.has_restriction());
    assert_eq!((edge.start_index, edge.end_index), (0, 1));
}

#[test]
fn adjacent_edges_of_a_point() {
    let edges = Edge::from_points(&triangle());
    assert_eq!(Point::find_adjacent_edges(0, &edges), (Some(0), Some(2)));
    assert_eq!(Point::find_adjacent_edges(2, &edges), (Some(1), Some(2)));
    assert_eq!(Point::find_adjacent_edges(9, &edges), (None, None));
    let open = vec![Edge::new(0, 1), Edge::new(1, 2)];
    assert_eq!(Point::find_adjacent_edges(0, &open), (Some(0), None));
}

#[test]
fn adjacent_edges_of_an_edge() {
    let edges = Edge::from_points(&triangle());
    assert_eq!(Edge::find_edge_adjacent_edges(0, &edges), (Some(2), Some(1)));
    assert_eq!(Edge::find_edge_adjacent_edges(2, &edges), (Some(1), Some(0)));
    assert_eq!(
        Edge::find_edge_adjacent_edge_with_common_point(1, &edges, EdgePointType::End),
        Some(2)
    );
    assert_eq!(
        Edge::find_edge_adjacent_edge_with_common_point(1, &edges, EdgePointType::Start),
        Some(0)
    );
}

#[test]
fn an_open_chain_has_no_edge_beyond_its_ends() {
    let open = vec![Edge::new(0, 1), Edge::new(1, 2)];
    assert_eq!(Edge::find_edge_adjacent_edges(0, &open), (None, Some(1)));
    assert_eq!(Edge::find_edge_adjacent_edges(1, &open), (Some(0), None));
}

#[test]
fn restrictions_of_the_neighbours() {
    let mut edges = Edge::from_points(&triangle());
    assert!(!Edge::neighours_have_vertical_or_horizontal_restriction(&edges, 0));
    edges[1].apply_vertical_restriction();
    assert!(Edge::neighours_have_vertical_or_horizontal_restriction(&edges, 0));
    assert!(Edge::neighours_have_vertical_or_horizontal_restriction(&edges, 2));
    assert!(!Edge::neighours_have_vertical_or_horizontal_restriction(&edges, 1));
    edges[1].apply_width_restriction(3);
    assert!(!Edge::neighours_have_vertical_or_horizontal_restriction(&edges, 0));
}
