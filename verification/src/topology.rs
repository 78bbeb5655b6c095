//! Changes to the contour as a whole: a vertex more, a vertex less, and the
//! translation of everything.
use crate::bezier::BezierData;
use crate::geometry::{
    advanced, are_beside_edge, is_beside, is_midway, is_sum, normalized, offset_from, over,
    quarter_turned, times,
};
use crate::point::{next_of, previous_of, ContinuityType, Point};
use crate::propagation::same_shape;
use egui::{Pos2, Vec2};
use vstd::prelude::*;

verus! {

/// The vertex `point` with a straight, unconstrained edge.
pub open spec fn cleared(point: Point) -> Point {
    Point { constraint: None, bezier_data: None, ..point }
}

/// A fresh vertex at `pos`.
pub open spec fn fresh_vertex(pos: Pos2) -> Point {
    Point { pos, constraint: None, bezier_data: None, continuity_type: ContinuityType::G0 }
}

/// The contour `s` with the edge that starts at vertex `i` split by a new
/// vertex at `pos`. The edge loses its constraint and its handles, so that
/// both halves are straight and unconstrained. The new vertex takes the
/// index of the vertex that followed `i`.
pub open spec fn with_vertex_on_edge(s: Seq<Point>, i: int, pos: Pos2) -> Seq<Point> {
    s.update(i, cleared(s[i])).insert(next_of(s.len() as int, i), fresh_vertex(pos))
}

/// The contour `s` without vertex `i`. The edge that arrived at `i` loses
/// its constraint and its handles, since it now leads to another vertex. A
/// contour of three vertices or fewer stays as it is.
pub open spec fn without_vertex(s: Seq<Point>, i: int) -> Seq<Point> {
    if s.len() <= 3 {
        s
    } else {
        let before = previous_of(s.len() as int, i);
        s.update(before, cleared(s[before])).remove(i)
    }
}

/// Whether `post` is `pre` with every vertex and every handle displaced by
/// `diff`.
pub open spec fn translated(pre: Seq<Point>, post: Seq<Point>, diff: Vec2) -> bool {
    &&& same_shape(pre, post)
    &&& forall|i: int|
        0 <= i < pre.len() ==> {
            &&& is_sum(pre[i].pos, diff, (#[trigger] post[i]).pos)
            &&& pre[i].bezier_data is Some ==> {
                &&& is_sum(
                    pre[i].bezier_data->0.inner_points[0],
                    diff,
                    post[i].bezier_data->0.inner_points[0],
                )
                &&& is_sum(
                    pre[i].bezier_data->0.inner_points[1],
                    diff,
                    post[i].bezier_data->0.inner_points[1],
                )
            }
        }
}

/// How far beside its edge a new curve segment gets its handles.
pub const INITIAL_HANDLE_OFFSET: i32 = 20;

impl Point {
    /// The handles for a new curve segment from `start` to `end`: beside the
    /// straight edge at one third and at two thirds of it, both on the same
    /// side and `INITIAL_HANDLE_OFFSET` away.
    pub fn get_points_between_for_initial_bezier(start: &Point, end: &Point) -> (r: [Pos2; 2])
        ensures
            are_beside_edge(start.pos, end.pos, INITIAL_HANDLE_OFFSET, r[0], r[1]),
    {
        let diff = offset_from(start.pos, end.pos);
        let across = quarter_turned(diff);
        let unit = normalized(across);
        let aside = times(unit, INITIAL_HANDLE_OFFSET);
        let third = over(diff, 3);
        let near_on_edge = advanced(start.pos, third);
        let near = advanced(near_on_edge, aside);
        let double = times(diff, 2);
        let two_thirds = over(double, 3);
        let far_on_edge = advanced(start.pos, two_thirds);
        let far = advanced(far_on_edge, aside);
        assert(is_beside(start.pos, third, aside, near)) by {
            assert(is_sum(start.pos, third, near_on_edge));
        }
        assert(is_beside(start.pos, two_thirds, aside, far)) by {
            assert(is_sum(start.pos, two_thirds, far_on_edge));
        }
        [near, far]
    }

    /// The point half-way from `start` to `end`: `start` displaced by half
    /// the offset between the two.
    pub fn get_middle_point(start: &Point, end: &Point) -> (r: Pos2)
        ensures
            is_midway(start.pos, end.pos, r),
    {
        let offset = offset_from(start.pos, end.pos);
        let half = over(offset, 2);
        advanced(start.pos, half)
    }

    /// Splits the edge that starts at `edge_start_index` by a new vertex at
    /// its middle point.
    pub fn add_on_edge(points: &mut Vec<Point>, edge_start_index: usize)
        requires
            edge_start_index < old(points).len(),
        ensures
            final(points)@.len() == old(points)@.len() + 1,
            final(points)@ == with_vertex_on_edge(
                old(points)@,
                edge_start_index as int,
                final(points)@[next_of(old(points)@.len() as int, edge_start_index as int)].pos,
            ),
            is_midway(
                old(points)@[edge_start_index as int].pos,
                old(points)@[next_of(old(points)@.len() as int, edge_start_index as int)].pos,
                final(points)@[next_of(old(points)@.len() as int, edge_start_index as int)].pos,
            ),
    {
        // Both halves of a split edge start without constraint and without
        // handles.
        points[edge_start_index].remove_constraint();
        points[edge_start_index].remove_bezier_data();
        let next_index = Self::get_next_index(points, edge_start_index);
        let new_point = Self::get_middle_point(&points[edge_start_index], &points[next_index]);
        points.insert(next_index, Point::new(new_point));
    }

    /// Removes vertex `point_index`, unless the contour would be left with
    /// fewer than three vertices.
    pub fn remove_at(points: &mut Vec<Point>, point_index: usize)
        requires
            point_index < old(points).len(),
        ensures
            final(points)@ == without_vertex(old(points)@, point_index as int),
    {
        if points.len() <= 3 {
            return ;
        }
        // The edge that arrived at the removed vertex leads elsewhere now:
        // what it carried no longer applies.
        let previous_index = Self::get_previous_index(points, point_index);
        points[previous_index].remove_constraint();
        points[previous_index].remove_bezier_data();
        points.remove(point_index);
    }

    /// Displaces every vertex and every handle by `diff`. Nothing else has
    /// to follow, since all of them move alike.
    pub fn update_position_all(points: &mut [Point], diff: Vec2)
        ensures
            translated(old(points)@, final(points)@, diff),
    {
        let mut i: usize = 0;
        while i < points.len()
            invariant
                i <= points.len(),
                same_shape(old(points)@, points@),
                forall|k: int| i <= k < points.len() ==> points@[k] == old(points)@[k],
                forall|k: int|
                    0 <= k < i ==> {
                        &&& is_sum(old(points)@[k].pos, diff, (#[trigger] points@[k]).pos)
                        &&& old(points)@[k].bezier_data is Some ==> {
                            &&& is_sum(
                                old(points)@[k].bezier_data->0.inner_points[0],
                                diff,
                                points@[k].bezier_data->0.inner_points[0],
                            )
                            &&& is_sum(
                                old(points)@[k].bezier_data->0.inner_points[1],
                                diff,
                                points@[k].bezier_data->0.inner_points[1],
                            )
                        }
                    },
            decreases points.len() - i,
        {
            let pos = advanced(points[i].pos, diff);
            points[i].pos = pos;
            if let Some(handles) = points[i].bezier_data {
                let near = advanced(handles.inner_points[0], diff);
                let far = advanced(handles.inner_points[1], diff);
                points[i].bezier_data = Some(BezierData { inner_points: [near, far] });
            }
            i += 1;
        }
    }
}

} // verus!
