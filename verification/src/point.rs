//! The vertices of a contour and what each of them carries for the edge
//! that leaves it.
use crate::bezier::BezierData;
use egui::Pos2;
use vstd::arithmetic::div_mod::{lemma_mod_add_multiples_vanish, lemma_mod_self_0, lemma_small_mod};
use vstd::prelude::*;

verus! {

/// A constraint on an edge.
#[derive(Clone, Copy)]
pub enum EdgeConstraint {
    /// Both endpoints have the same ordinate.
    Horizontal,
    /// Both endpoints have the same abscissa.
    Vertical,
    /// The endpoints are this far apart.
    ConstWidth(i32),
}

/// What is asked of the two tangents that meet at a vertex next to a curve
/// segment.
#[derive(Clone, Copy, PartialEq, Eq, Structural)]
pub enum ContinuityType {
    /// Nothing.
    G0,
    /// The same direction, and lengths that match once a handle's is
    /// counted three times a straight edge's.
    C1,
    /// The same direction.
    G1,
}

/// A vertex of the contour. It is also the start of the edge that leads to
/// the next vertex, and carries what belongs to that edge.
#[derive(Clone, Copy)]
pub struct Point {
    pub pos: Pos2,
    /// The constraint on the edge that starts here.
    pub constraint: Option<EdgeConstraint>,
    /// The handles of the curve segment that starts here, if the edge is
    /// one.
    pub bezier_data: Option<BezierData>,
    pub continuity_type: ContinuityType,
}

/// The index that follows `i` on a contour of `n` vertices.
pub open spec fn next_of(n: int, i: int) -> int {
    if i + 1 == n {
        0
    } else {
        i + 1
    }
}

/// The index that precedes `i` on a contour of `n` vertices.
pub open spec fn previous_of(n: int, i: int) -> int {
    if i == 0 {
        n - 1
    } else {
        i - 1
    }
}

/// Whether the edge that leaves vertex `i` is a curve segment.
pub open spec fn is_curve_start(s: Seq<Point>, i: int) -> bool {
    s[i].bezier_data is Some
}

/// Whether the edge that arrives at vertex `i` is a curve segment.
pub open spec fn is_curve_end(s: Seq<Point>, i: int) -> bool {
    is_curve_start(s, previous_of(s.len() as int, i))
}

/// Whether vertex `i` is an endpoint of a curve segment.
pub open spec fn touches_curve(s: Seq<Point>, i: int) -> bool {
    is_curve_end(s, i) || is_curve_start(s, i)
}

impl Point {
    /// A vertex at `pos` whose edge is straight and unconstrained.
    pub fn new(pos: Pos2) -> (r: Self)
        ensures
            r.pos == pos,
            r.constraint is None,
            r.bezier_data is None,
            r.continuity_type == ContinuityType::G0,
    {
        Self { pos, constraint: None, bezier_data: None, continuity_type: ContinuityType::G0 }
    }

    pub fn pos(&self) -> (r: &Pos2)
        ensures
            *r == self.pos,
    {
        &self.pos
    }

    /// The position, to be changed in place. Nothing follows such a change:
    /// the constraints and the continuity of the contour are kept by
    /// `update_position`.
    pub fn pos_mut(&mut self) -> (r: &mut Pos2)
        ensures
            *r == old(self).pos,
            *final(self) == (Point { pos: *final(r), ..*old(self) }),
    {
        &mut self.pos
    }

    pub fn constraint(&self) -> (r: &Option<EdgeConstraint>)
        ensures
            *r == self.constraint,
    {
        &self.constraint
    }

    pub fn bezier_data(&self) -> (r: &Option<BezierData>)
        ensures
            *r == self.bezier_data,
    {
        &self.bezier_data
    }

    /// The handles of the curve segment that starts here, to be changed in
    /// place, if the edge is one.
    pub fn bezier_data_mut(&mut self) -> (r: Option<&mut BezierData>)
        ensures
            r is Some == old(self).bezier_data is Some,
            r matches Some(handles) ==> *handles == old(self).bezier_data->0 && *final(self) == (Point {
                bezier_data: Some(*final(handles)),
                ..*old(self)
            }),
            r is None ==> *final(self) == *old(self),
    {
        match &mut self.bezier_data {
            Some(handles) => Some(handles),
            None => None,
        }
    }

    pub fn has_constraint(&self) -> (r: bool)
        ensures
            r == (self.constraint is Some),
    {
        self.constraint.is_some()
    }

    pub fn has_horizontal_constraint(&self) -> (r: bool)
        ensures
            r == (self.constraint == Some(EdgeConstraint::Horizontal)),
    {
        match self.constraint {
            Some(EdgeConstraint::Horizontal) => true,
            _ => false,
        }
    }

    pub fn has_vertical_constraint(&self) -> (r: bool)
        ensures
            r == (self.constraint == Some(EdgeConstraint::Vertical)),
    {
        match self.constraint {
            Some(EdgeConstraint::Vertical) => true,
            _ => false,
        }
    }

    pub fn has_width_constraint(&self) -> (r: bool)
        ensures
            r == (self.constraint matches Some(EdgeConstraint::ConstWidth(_))),
    {
        match self.constraint {
            Some(EdgeConstraint::ConstWidth(_)) => true,
            _ => false,
        }
    }

    pub fn is_start_of_bezier_segment(&self) -> (r: bool)
        ensures
            r == (self.bezier_data is Some),
    {
        self.bezier_data.is_some()
    }

    pub fn is_end_of_bezier_segment(points: &[Point], point_index: usize) -> (r: bool)
        requires
            point_index < points.len(),
        ensures
            r == is_curve_end(points@, point_index as int),
    {
        points[Point::get_previous_index(points, point_index)].is_start_of_bezier_segment()
    }

    pub fn is_part_of_bezier_segment(points: &[Point], point_index: usize) -> (r: bool)
        requires
            point_index < points.len(),
        ensures
            r == touches_curve(points@, point_index as int),
    {
        Self::is_end_of_bezier_segment(points, point_index)
            || points[point_index].is_start_of_bezier_segment()
    }

    /// Makes the edge that starts here a curve segment with the two given
    /// handles.
    pub fn init_bezier_data(&mut self, initial_pos: [Pos2; 2])
        ensures
            *final(self) == (Point { bezier_data: Some(BezierData { inner_points: initial_pos }), ..*old(self) }),
    {
        self.bezier_data = Some(BezierData::new(initial_pos));
    }

    pub fn remove_bezier_data(&mut self)
        ensures
            *final(self) == (Point { bezier_data: None, ..*old(self) }),
    {
        self.bezier_data = None;
    }

    pub fn continuity_type(&self) -> (r: &ContinuityType)
        ensures
            *r == self.continuity_type,
    {
        &self.continuity_type
    }

    #[allow(non_snake_case)]
    pub fn apply_G0(&mut self)
        ensures
            *final(self) == (Point { continuity_type: ContinuityType::G0, ..*old(self) }),
    {
        self.continuity_type = ContinuityType::G0;
    }

    #[allow(non_snake_case)]
    pub fn apply_G1(&mut self)
        ensures
            *final(self) == (Point { continuity_type: ContinuityType::G1, ..*old(self) }),
    {
        self.continuity_type = ContinuityType::G1;
    }

    #[allow(non_snake_case)]
    pub fn apply_C1(&mut self)
        ensures
            *final(self) == (Point { continuity_type: ContinuityType::C1, ..*old(self) }),
    {
        self.continuity_type = ContinuityType::C1;
    }

    pub fn remove_constraint(&mut self)
        ensures
            *final(self) == (Point { constraint: None, ..*old(self) }),
    {
        self.constraint = None;
    }

    pub fn apply_horizontal_constraint(&mut self)
        ensures
            *final(self) == (Point { constraint: Some(EdgeConstraint::Horizontal), ..*old(self) }),
    {
        self.constraint = Some(EdgeConstraint::Horizontal);
    }

    pub fn apply_vertical_constraint(&mut self)
        ensures
            *final(self) == (Point { constraint: Some(EdgeConstraint::Vertical), ..*old(self) }),
    {
        self.constraint = Some(EdgeConstraint::Vertical);
    }

    pub fn apply_width_constraint(&mut self, width: i32)
        ensures
            *final(self) == (Point { constraint: Some(EdgeConstraint::ConstWidth(width)), ..*old(self) }),
    {
        self.constraint = Some(EdgeConstraint::ConstWidth(width));
    }

    /// The index of the vertex that follows `point_index`; the first vertex
    /// follows the last.
    pub fn get_next_index(points: &[Point], point_index: usize) -> (r: usize)
        requires
            point_index < points.len(),
        ensures
            r == next_of(points.len() as int, point_index as int),
            r == (point_index + 1) % (points.len() as int),
            r < points.len(),
    {
        proof {
            let n = points.len() as int;
            if point_index + 1 == n {
                lemma_mod_self_0(n);
            } else {
                lemma_small_mod((point_index + 1) as nat, n as nat);
            }
        }
        if point_index + 1 == points.len() {
            0
        } else {
            point_index + 1
        }
    }

    /// The index of the vertex that precedes `point_index`; the last vertex
    /// precedes the first.
    pub fn get_previous_index(points: &[Point], point_index: usize) -> (r: usize)
        requires
            point_index < points.len(),
        ensures
            r == previous_of(points.len() as int, point_index as int),
            r == (point_index + points.len() - 1) % (points.len() as int),
            r < points.len(),
    {
        proof {
            let n = points.len() as int;
            if point_index == 0 {
                lemma_small_mod((n - 1) as nat, n as nat);
            } else {
                lemma_mod_add_multiples_vanish(point_index - 1, n);
                lemma_small_mod((point_index - 1) as nat, n as nat);
            }
        }
        if point_index == 0 {
            points.len() - 1
        } else {
            point_index - 1
        }
    }

    /// Whether one of the two edges next to the edge that starts at
    /// `point_index` is vertical.
    pub fn neighour_edges_have_vertical_constraint(points: &[Point], point_index: usize) -> (r: bool)
        requires
            point_index < points.len(),
        ensures
            r == (points@[previous_of(points.len() as int, point_index as int)].constraint == Some(
                EdgeConstraint::Vertical,
            ) || points@[next_of(points.len() as int, point_index as int)].constraint == Some(
                EdgeConstraint::Vertical,
            )),
    {
        let previous_edge_start = Self::get_previous_index(points, point_index);
        let next_edge_start = Self::get_next_index(points, point_index);
        points[previous_edge_start].has_vertical_constraint()
            || points[next_edge_start].has_vertical_constraint()
    }

    /// Whether one of the two edges next to the edge that starts at
    /// `point_index` is horizontal.
    pub fn neighour_edges_have_horizontal_constraint(points: &[Point], point_index: usize) -> (r: bool)
        requires
            point_index < points.len(),
        ensures
            r == (points@[previous_of(points.len() as int, point_index as int)].constraint == Some(
                EdgeConstraint::Horizontal,
            ) || points@[next_of(points.len() as int, point_index as int)].constraint == Some(
                EdgeConstraint::Horizontal,
            )),
    {
        let previous_edge_start = Self::get_previous_index(points, point_index);
        let next_edge_start = Self::get_next_index(points, point_index);
        points[previous_edge_start].has_horizontal_constraint()
            || points[next_edge_start].has_horizontal_constraint()
    }
}

} // verus!
