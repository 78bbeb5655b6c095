//! What has to follow when one vertex or one curve handle of a contour has
//! moved: the constraint rule for straight edges, the continuity rules for
//! the vertices next to curve segments, and the two walks that carry them
//! round the contour.
//!
//! The rules copy coordinates or compute new positions. A copied coordinate
//! is specified exactly. A computed position is a rounded floating-point
//! result: the specifications say where it is put, when the computation is
//! skipped, and from which operands it is computed by which operations, as
//! far as `geometry` can say that.
use crate::bezier::BezierData;
use crate::geometry::{
    advanced, at_column_of, at_height_of, coincide, is_at_width, is_carried, is_normalized,
    is_offset, is_opposite, is_opposite_third, is_opposite_tripled, is_tangent, is_times_length,
    normalized,
    offset_from, over, over_length_of, retreated, same_place, set_column, set_height, times,
    times_length_of, turned,
};
use crate::point::{
    next_of, previous_of, touches_curve, ContinuityType, EdgeConstraint, Point,
};
use egui::Pos2;
use vstd::prelude::*;

verus! {

/// The side towards which a change is carried: `Left` towards lower
/// indices, `Right` towards higher ones.
#[derive(Clone, Copy, PartialEq, Eq, Structural)]
pub enum UpdateDirection {
    Left,
    Right,
}

/// A place of the contour that holds a position: a vertex, or one of the two
/// handles of the curve segment that starts at a vertex.
#[derive(Clone, Copy)]
pub enum Slot {
    Vertex(usize),
    Handle(usize, usize),
}

/// Whether the contour has the slot.
pub open spec fn has_slot(s: Seq<Point>, slot: Slot) -> bool {
    match slot {
        Slot::Vertex(i) => i < s.len(),
        Slot::Handle(i, k) => i < s.len() && k < 2 && s[i as int].bezier_data is Some,
    }
}

/// The position that the slot holds.
pub open spec fn position_at(s: Seq<Point>, slot: Slot) -> Pos2 {
    match slot {
        Slot::Vertex(i) => s[i as int].pos,
        Slot::Handle(i, k) => s[i as int].bezier_data->0.inner_points[k as int],
    }
}

/// The handles `b` with handle `k` at `p`.
pub open spec fn with_handle(b: BezierData, k: usize, p: Pos2) -> BezierData {
    if k == 0 {
        BezierData { inner_points: [p, b.inner_points[1]] }
    } else {
        BezierData { inner_points: [b.inner_points[0], p] }
    }
}

/// The contour `s` with the slot at `p` and all else as it is.
pub open spec fn with_position(s: Seq<Point>, slot: Slot, p: Pos2) -> Seq<Point> {
    match slot {
        Slot::Vertex(i) => s.update(i as int, Point { pos: p, ..s[i as int] }),
        Slot::Handle(i, k) => s.update(
            i as int,
            Point { bezier_data: Some(with_handle(s[i as int].bezier_data->0, k, p)), ..s[i as int] },
        ),
    }
}

/// Whether two contours have the same number of vertices and, vertex by
/// vertex, the same constraint, the same continuity, and a curve segment on
/// the same edges. Propagation moves positions and keeps the shape.
pub open spec fn same_shape(a: Seq<Point>, b: Seq<Point>) -> bool {
    &&& a.len() == b.len()
    &&& forall|i: int|
        0 <= i < a.len() ==> {
            &&& (#[trigger] a[i]).constraint == b[i].constraint
            &&& a[i].continuity_type == b[i].continuity_type
            &&& (a[i].bezier_data is Some) == (b[i].bezier_data is Some)
        }
}

/// Seen from vertex `p`, the near end of the edge that arrives there: the
/// second handle of that edge where it is a curve segment, the vertex
/// before `p` where it is straight.
pub open spec fn end_before(s: Seq<Point>, p: int) -> Slot {
    let q = previous_of(s.len() as int, p);
    if s[q].bezier_data is Some {
        Slot::Handle(q as usize, 1)
    } else {
        Slot::Vertex(q as usize)
    }
}

/// Seen from vertex `p`, the near end of the edge that leaves it: the first
/// handle of that edge where it is a curve segment, the vertex after `p`
/// where it is straight.
pub open spec fn end_after(s: Seq<Point>, p: int) -> Slot {
    if s[p].bezier_data is Some {
        Slot::Handle(p as usize, 0)
    } else {
        Slot::Vertex(next_of(s.len() as int, p) as usize)
    }
}

/// The end next to `p` that a continuity rule reads when it works towards
/// `direction`: the one on the other side.
pub open spec fn staying_end(s: Seq<Point>, p: int, direction: UpdateDirection) -> Slot {
    match direction {
        UpdateDirection::Left => end_after(s, p),
        UpdateDirection::Right => end_before(s, p),
    }
}

/// The end next to `p` that a continuity rule writes when it works towards
/// `direction`: the one on that side.
pub open spec fn moving_end(s: Seq<Point>, p: int, direction: UpdateDirection) -> Slot {
    match direction {
        UpdateDirection::Left => end_before(s, p),
        UpdateDirection::Right => end_after(s, p),
    }
}

/// The outcome of computing a new position for one slot: `post` is `pre`
/// with some position in that slot, and is `pre` untouched where the
/// computation is `skipped`.
pub open spec fn settled(pre: Seq<Point>, post: Seq<Point>, slot: Slot, skipped: bool) -> bool {
    if skipped {
        post == pre
    } else {
        post == with_position(pre, slot, position_at(post, slot))
    }
}

impl Slot {
    /// The position that the slot holds.
    pub fn read(self, points: &[Point]) -> (r: Pos2)
        requires
            has_slot(points@, self),
        ensures
            r == position_at(points@, self),
    {
        match self {
            Slot::Vertex(i) => points[i].pos,
            Slot::Handle(i, k) => {
                let handles = points[i].bezier_data.unwrap();
                handles.inner_points[k]
            },
        }
    }

    /// Puts `p` in the slot.
    pub fn write(self, points: &mut [Point], p: Pos2)
        requires
            has_slot(old(points)@, self),
        ensures
            final(points)@ == with_position(old(points)@, self, p),
            same_shape(old(points)@, final(points)@),
    {
        match self {
            Slot::Vertex(i) => {
                points[i].pos = p;
            },
            Slot::Handle(i, k) => {
                let handles = points[i].bezier_data.unwrap();
                let moved = if k == 0 {
                    BezierData { inner_points: [p, handles.inner_points[1]] }
                } else {
                    BezierData { inner_points: [handles.inner_points[0], p] }
                };
                points[i].bezier_data = Some(moved);
            },
        }
        assert(points@ =~= with_position(old(points)@, self, p));
    }
}


/// Whether `r` is where `constraint` puts an endpoint of its edge that is at
/// `point_to_update` while the other endpoint stays at `fixed_point`. On a
/// horizontal edge the endpoint takes the ordinate of the fixed one and
/// keeps its abscissa. On a vertical edge it takes the abscissa and keeps
/// its ordinate. On an edge of constant width it goes to the position at
/// that width from the fixed endpoint, in the direction in which it lies
/// now; where the two endpoints are at the same place there is no such
/// direction, and the endpoint stays.
pub open spec fn obeys(
    constraint: EdgeConstraint,
    fixed_point: Pos2,
    point_to_update: Pos2,
    r: Pos2,
) -> bool {
    match constraint {
        EdgeConstraint::Horizontal => r == at_height_of(point_to_update, fixed_point),
        EdgeConstraint::Vertical => r == at_column_of(point_to_update, fixed_point),
        EdgeConstraint::ConstWidth(width) => if coincide(point_to_update, fixed_point) {
            r == point_to_update
        } else {
            is_at_width(width, false, fixed_point, point_to_update, r)
        },
    }
}

impl EdgeConstraint {
    /// Where the constraint puts the endpoint at `point_to_update` of an
    /// edge whose other endpoint stays at `fixed_point`. For a constant
    /// width that is the position at that distance from the fixed endpoint,
    /// in the direction in which the endpoint lies now.
    pub fn apply(&self, fixed_point: Pos2, point_to_update: Pos2) -> (r: Pos2)
        ensures
            obeys(*self, fixed_point, point_to_update, r),
    {
        match self {
            EdgeConstraint::Horizontal => set_height(point_to_update, fixed_point),
            EdgeConstraint::Vertical => set_column(point_to_update, fixed_point),
            EdgeConstraint::ConstWidth(width) => Point::calculate_position_for_keeping_width(
                *width,
                false,
                fixed_point,
                point_to_update,
            ),
        }
    }
}

/// What the constraint of an edge makes of one endpoint, `moved`, when the
/// other, `fixed`, is where it has to stay. For a horizontal edge `moved`
/// takes the ordinate of `fixed` and keeps its abscissa; for a vertical edge
/// it takes the abscissa and keeps its ordinate; for an edge of constant
/// width it goes to the position at that width from `fixed`, in the
/// direction in which it lies, and stays where it is if the two endpoints
/// are at the same place, where the edge has no direction to keep.
pub open spec fn constrained(
    pre: Seq<Point>,
    post: Seq<Point>,
    moved: int,
    fixed: int,
    constraint: EdgeConstraint,
) -> bool {
    let here = pre[moved].pos;
    let there = pre[fixed].pos;
    match constraint {
        EdgeConstraint::Horizontal => post == with_position(
            pre,
            Slot::Vertex(moved as usize),
            at_height_of(here, there),
        ),
        EdgeConstraint::Vertical => post == with_position(
            pre,
            Slot::Vertex(moved as usize),
            at_column_of(here, there),
        ),
        EdgeConstraint::ConstWidth(width) => {
            &&& settled(pre, post, Slot::Vertex(moved as usize), coincide(here, there))
            &&& !coincide(here, there) ==> is_at_width(width, false, there, here, post[moved].pos)
        },
    }
}

/// The free adjustment of the curve segment that starts at `curve_start`
/// after one of its endpoints has gone from `anchor_was` to `anchor_is`
/// while the other, at `pivot`, stayed: both handles are carried about the
/// pivot, turned and scaled as the endpoint was. Nothing happens where the
/// edge is no curve segment, where the endpoint has not left its place, or
/// where it was at the pivot's place.
pub open spec fn reshaped(
    pre: Seq<Point>,
    post: Seq<Point>,
    curve_start: int,
    anchor_was: Pos2,
    anchor_is: Pos2,
    pivot: Pos2,
) -> bool {
    if pre[curve_start].bezier_data is Some && !coincide(anchor_was, anchor_is) && !coincide(
        anchor_was,
        pivot,
    ) {
        let were = pre[curve_start].bezier_data->0.inner_points;
        let are = post[curve_start].bezier_data->0.inner_points;
        &&& post == pre.update(
            curve_start,
            Point { bezier_data: Some(post[curve_start].bezier_data->0), ..pre[curve_start] },
        )
        &&& is_carried(were[0], pivot, anchor_was, anchor_is, are[0])
        &&& is_carried(were[1], pivot, anchor_was, anchor_is, are[1])
    } else {
        post == pre
    }
}

/// The free adjustment at vertex `v`, which was at `anchor_was`: where `v`
/// asks for no continuity, the curve segment that arrives at `v` and the one
/// that leaves it are reshaped, each about its other endpoint.
pub open spec fn freely_adjusted(pre: Seq<Point>, post: Seq<Point>, v: int, anchor_was: Pos2) -> bool {
    let n = pre.len() as int;
    if pre[v].continuity_type == ContinuityType::G0 {
        exists|mid: Seq<Point>|
            {
                &&& reshaped(
                    pre,
                    mid,
                    previous_of(n, v),
                    anchor_was,
                    pre[v].pos,
                    pre[previous_of(n, v)].pos,
                )
                &&& reshaped(mid, post, v, anchor_was, pre[v].pos, pre[next_of(n, v)].pos)
            }
    } else {
        post == pre
    }
}

/// What an edge does to its endpoint `moved` while the other endpoint,
/// `fixed`, stays: where the edge has a constraint, the constraint is
/// applied and the curve segments next to `moved` are freely adjusted to its
/// new place; where it has none, nothing happens.
pub open spec fn dragged(
    pre: Seq<Point>,
    post: Seq<Point>,
    moved: int,
    fixed: int,
    constraint: Option<EdgeConstraint>,
) -> bool {
    match constraint {
        Some(c) => exists|mid: Seq<Point>|
            constrained(pre, mid, moved, fixed, c) && freely_adjusted(mid, post, moved, pre[moved].pos),
        None => post == pre,
    }
}

/// The first half of a continuity rule at vertex `p`: the end that stays is
/// brought in line with the constraint of the edge that starts at `p`. For a
/// horizontal constraint it takes the ordinate of `p`, for a vertical one
/// the abscissa of `p`. For a constant width `w > 0`, under `C1` and
/// towards the right, a handle that stays goes to a third of `w` from `p`,
/// in the direction in which it lies, unless it is at the place of `p`.
pub open spec fn aligned(pre: Seq<Point>, post: Seq<Point>, p: int, direction: UpdateDirection) -> bool {
    let stay = staying_end(pre, p, direction);
    let was = position_at(pre, stay);
    let here = pre[p].pos;
    match pre[p].constraint {
        Some(EdgeConstraint::Horizontal) => post == with_position(pre, stay, at_height_of(was, here)),
        Some(EdgeConstraint::Vertical) => post == with_position(pre, stay, at_column_of(was, here)),
        Some(EdgeConstraint::ConstWidth(w)) => if pre[p].continuity_type == ContinuityType::C1
            && direction == UpdateDirection::Right && w > 0 && stay is Handle {
            &&& settled(pre, post, stay, coincide(was, here))
            &&& !coincide(was, here) ==> is_at_width(w, true, here, was, position_at(post, stay))
        } else {
            post == pre
        },
        None => post == pre,
    }
}

/// Whether `r` continues, on the other side of `continuity_point`, the
/// tangent that points to `end_to_stay`, as `continuity` asks, for an end
/// that was at `end_to_update`. `G1` asks for the opposite direction, and
/// the end keeps its own distance from the continuity point. `C1` asks for
/// the opposite direction at the distance of `end_to_stay`, taken as
/// `ratio` says: as it is, three times, or a third. `G0` asks for nothing,
/// and nothing continues it.
pub open spec fn continues(
    continuity: ContinuityType,
    ratio: LengthRatio,
    continuity_point: Pos2,
    end_to_stay: Pos2,
    end_to_update: Pos2,
    r: Pos2,
) -> bool {
    match continuity {
        ContinuityType::G0 => false,
        ContinuityType::G1 => is_opposite(continuity_point, end_to_stay, end_to_update, r),
        ContinuityType::C1 => match ratio {
            LengthRatio::Same => is_opposite(continuity_point, end_to_stay, end_to_stay, r),
            LengthRatio::Triple => is_opposite_tripled(
                continuity_point,
                end_to_stay,
                end_to_stay,
                r,
            ),
            LengthRatio::Third => is_opposite_third(continuity_point, end_to_stay, end_to_stay, r),
        },
    }
}

/// The second half of a continuity rule at vertex `p`: the end that moves
/// is put opposite the end that stays, as the continuity at `p` asks, with
/// the ratio of lengths that the two ends have between them. It stays where
/// it is if the end that stays is at the place of `p`, where there is no
/// direction to continue.
pub open spec fn mirrored(pre: Seq<Point>, post: Seq<Point>, p: int, direction: UpdateDirection) -> bool {
    let stay = staying_end(pre, p, direction);
    let moving = moving_end(pre, p, direction);
    let skipped = coincide(position_at(pre, stay), pre[p].pos);
    &&& settled(pre, post, moving, skipped)
    &&& !skipped ==> continues(
        pre[p].continuity_type,
        length_ratio(stay is Handle, moving is Handle),
        pre[p].pos,
        position_at(pre, stay),
        position_at(pre, moving),
        position_at(post, moving),
    )
}

/// A continuity rule at vertex `p` towards `direction`: the end that stays
/// is aligned, then the end that moves is mirrored.
pub open spec fn continuity_applied(
    pre: Seq<Point>,
    post: Seq<Point>,
    p: int,
    direction: UpdateDirection,
) -> bool {
    exists|mid: Seq<Point>| aligned(pre, mid, p, direction) && mirrored(mid, post, p, direction)
}

/// The continuity adjustment at vertex `p` towards `direction`: where `p`
/// is an endpoint of a curve segment and asks for `G1` or `C1`, that rule is
/// applied; otherwise nothing happens.
pub open spec fn continuity_adjusted(
    pre: Seq<Point>,
    post: Seq<Point>,
    p: int,
    direction: UpdateDirection,
) -> bool {
    if touches_curve(pre, p) && pre[p].continuity_type != ContinuityType::G0 {
        continuity_applied(pre, post, p, direction)
    } else {
        post == pre
    }
}

/// The two ends next to a vertex depend on the shape of the contour alone.
pub proof fn lemma_ends_follow_shape(a: Seq<Point>, b: Seq<Point>, p: int)
    requires
        same_shape(a, b),
        0 <= p < a.len(),
    ensures
        end_before(a, p) == end_before(b, p),
        end_after(a, p) == end_after(b, p),
        touches_curve(a, p) == touches_curve(b, p),
{
    let q = previous_of(a.len() as int, p);
    assert(a[q].constraint == b[q].constraint);
    assert(a[p].constraint == b[p].constraint);
}

/// How the tangent on the side that moves compares in length with the
/// tangent on the side that stays, under `C1`. The derivative of a cubic
/// curve at an endpoint is three times the handle's offset, that of a
/// straight edge is the edge itself.
pub enum LengthRatio {
    Same,
    Triple,
    Third,
}

/// The ratio for the two ends: equal lengths where both are handles, a
/// vertex three times as far as the handle it answers, a handle at a third
/// of the edge it answers.
pub open spec fn length_ratio(staying_is_handle: bool, moving_is_handle: bool) -> LengthRatio {
    if staying_is_handle == moving_is_handle {
        LengthRatio::Same
    } else if staying_is_handle {
        LengthRatio::Triple
    } else {
        LengthRatio::Third
    }
}

impl LengthRatio {
    pub fn between(staying: Slot, moving: Slot) -> (r: Self)
        ensures
            r == length_ratio(staying is Handle, moving is Handle),
    {
        match (staying, moving) {
            (Slot::Handle(_, _), Slot::Vertex(_)) => LengthRatio::Triple,
            (Slot::Vertex(_), Slot::Handle(_, _)) => LengthRatio::Third,
            _ => LengthRatio::Same,
        }
    }
}

impl Point {
    /// The end of the edge that arrives at `point_index`, seen from there.
    fn end_before(points: &[Point], point_index: usize) -> (r: Slot)
        requires
            point_index < points.len(),
        ensures
            r == end_before(points@, point_index as int),
            has_slot(points@, r),
    {
        let previous_index = Self::get_previous_index(points, point_index);
        if points[previous_index].is_start_of_bezier_segment() {
            Slot::Handle(previous_index, 1)
        } else {
            Slot::Vertex(previous_index)
        }
    }

    /// The end of the edge that leaves `point_index`, seen from there.
    fn end_after(points: &[Point], point_index: usize) -> (r: Slot)
        requires
            point_index < points.len(),
        ensures
            r == end_after(points@, point_index as int),
            has_slot(points@, r),
    {
        if points[point_index].is_start_of_bezier_segment() {
            Slot::Handle(point_index, 0)
        } else {
            Slot::Vertex(Self::get_next_index(points, point_index))
        }
    }

    /// The position at distance `width` from `pos_to_stay`, or at a third of
    /// it, in the direction of `pos_to_update`; `pos_to_update` itself where
    /// the two are at the same place and there is no such direction.
    fn calculate_position_for_keeping_width(
        width: i32,
        third: bool,
        pos_to_stay: Pos2,
        pos_to_update: Pos2,
    ) -> (r: Pos2)
        ensures
            if coincide(pos_to_update, pos_to_stay) {
                r == pos_to_update
            } else {
                is_at_width(width, third, pos_to_stay, pos_to_update, r)
            },
    {
        if same_place(pos_to_update, pos_to_stay) {
            return pos_to_update;
        }
        let offset = offset_from(pos_to_stay, pos_to_update);
        let direction = normalized(offset);
        let reach = times(direction, width);
        if third {
            let short = over(reach, 3);
            advanced(pos_to_stay, short)
        } else {
            advanced(pos_to_stay, reach)
        }
    }

    /// The position opposite `end_to_stay` as seen from the continuity
    /// point, as far from it as `end_to_update` is.
    fn new_position_for_adjusting_g1_continuity(
        continuity_point: Pos2,
        end_to_stay: Pos2,
        end_to_update: Pos2,
    ) -> (r: Pos2)
        ensures
            is_opposite(continuity_point, end_to_stay, end_to_update, r),
    {
        let unchanged_vector = offset_from(continuity_point, end_to_stay);
        let kept_vector = offset_from(continuity_point, end_to_update);
        let unit = normalized(unchanged_vector);
        let tangent = times_length_of(unit, kept_vector);
        assert(is_tangent(continuity_point, end_to_stay, end_to_update, tangent)) by {
            assert(is_offset(continuity_point, end_to_stay, unchanged_vector) && is_normalized(
                unchanged_vector,
                unit,
            ) && is_offset(continuity_point, end_to_update, kept_vector) && is_times_length(
                unit,
                kept_vector,
                tangent,
            ));
        }
        retreated(continuity_point, tangent)
    }

    /// The position opposite `end_to_stay` as seen from the continuity
    /// point, at `ratio` times the distance of `end_to_preserve_length`.
    fn new_position_for_adjusting_c1_continuity(
        continuity_point: Pos2,
        end_to_stay: Pos2,
        end_to_preserve_length: Pos2,
        ratio: LengthRatio,
    ) -> (r: Pos2)
        ensures
            match ratio {
                LengthRatio::Same => is_opposite(
                    continuity_point,
                    end_to_stay,
                    end_to_preserve_length,
                    r,
                ),
                LengthRatio::Triple => is_opposite_tripled(
                    continuity_point,
                    end_to_stay,
                    end_to_preserve_length,
                    r,
                ),
                LengthRatio::Third => is_opposite_third(
                    continuity_point,
                    end_to_stay,
                    end_to_preserve_length,
                    r,
                ),
            },
    {
        let unchanged_vector = offset_from(continuity_point, end_to_stay);
        let length_vector = offset_from(continuity_point, end_to_preserve_length);
        let unit = normalized(unchanged_vector);
        let tangent = times_length_of(unit, length_vector);
        assert(is_tangent(continuity_point, end_to_stay, end_to_preserve_length, tangent)) by {
            assert(is_offset(continuity_point, end_to_stay, unchanged_vector) && is_normalized(
                unchanged_vector,
                unit,
            ) && is_offset(continuity_point, end_to_preserve_length, length_vector)
                && is_times_length(unit, length_vector, tangent));
        }
        match ratio {
            LengthRatio::Same => retreated(continuity_point, tangent),
            LengthRatio::Triple => {
                let long = times(tangent, 3);
                retreated(continuity_point, long)
            },
            LengthRatio::Third => {
                let short = over(tangent, 3);
                retreated(continuity_point, short)
            },
        }
    }

    /// Where a handle goes when an endpoint of its curve segment goes from
    /// `anchor_was` to `anchor_is` and the other endpoint stays at `pivot`:
    /// its offset from the pivot is turned by the angle between the two
    /// offsets of the endpoint, and scaled by the ratio of their lengths.
    fn scale_and_rotate(handle: Pos2, pivot: Pos2, anchor_was: Pos2, anchor_is: Pos2) -> (r: Pos2)
        ensures
            is_carried(handle, pivot, anchor_was, anchor_is, r),
    {
        let from = offset_from(pivot, anchor_was);
        let to = offset_from(pivot, anchor_is);
        let offset = offset_from(pivot, handle);
        let turned_offset = turned(offset, from, to);
        let stretched = times_length_of(turned_offset, to);
        let fitted = over_length_of(stretched, from);
        advanced(pivot, fitted)
    }

    /// Applies `constraint` to the edge between the two vertices by moving
    /// `point_index`; the vertex `other_edge_end_index` stays.
    fn apply_constraint_diff(
        points: &mut [Point],
        point_index: usize,
        other_edge_end_index: usize,
        constraint: &EdgeConstraint,
    )
        requires
            point_index < old(points).len(),
            other_edge_end_index < old(points).len(),
        ensures
            constrained(
                old(points)@,
                final(points)@,
                point_index as int,
                other_edge_end_index as int,
                *constraint,
            ),
            same_shape(old(points)@, final(points)@),
    {
        let here = points[point_index].pos;
        let there = points[other_edge_end_index].pos;
        Slot::Vertex(point_index).write(points, constraint.apply(there, here));
        assert(constraint is ConstWidth && coincide(here, there) ==> points@ =~= old(points)@);
    }

    /// Reshapes the curve segment that starts at `curve_start` after one of
    /// its endpoints has moved.
    fn adjust_bezier_segment_freely(
        points: &mut [Point],
        curve_start: usize,
        anchor_was: Pos2,
        anchor_is: Pos2,
        pivot: Pos2,
    )
        requires
            curve_start < old(points).len(),
        ensures
            reshaped(old(points)@, final(points)@, curve_start as int, anchor_was, anchor_is, pivot),
            same_shape(old(points)@, final(points)@),
    {
        if let Some(handles) = points[curve_start].bezier_data {
            if !same_place(anchor_was, anchor_is) && !same_place(anchor_was, pivot) {
                let near = Self::scale_and_rotate(handles.inner_points[0], pivot, anchor_was, anchor_is);
                let far = Self::scale_and_rotate(handles.inner_points[1], pivot, anchor_was, anchor_is);
                points[curve_start].bezier_data = Some(BezierData { inner_points: [near, far] });
                assert(points@ =~= old(points)@.update(
                    curve_start as int,
                    Point {
                        bezier_data: Some(points@[curve_start as int].bezier_data->0),
                        ..old(points)@[curve_start as int]
                    },
                ));
            }
        }
    }

    /// The free adjustment at `point_index`, which was at `anchor_was`.
    fn adjust_adjacent_bezier_segments_freely(points: &mut [Point], point_index: usize, anchor_was: Pos2)
        requires
            point_index < old(points).len(),
        ensures
            freely_adjusted(old(points)@, final(points)@, point_index as int, anchor_was),
            same_shape(old(points)@, final(points)@),
    {
        if points[point_index].continuity_type == ContinuityType::G0 {
            let anchor_is = points[point_index].pos;
            let previous_index = Self::get_previous_index(points, point_index);
            let next_index = Self::get_next_index(points, point_index);
            let before = points[previous_index].pos;
            let after = points[next_index].pos;
            Self::adjust_bezier_segment_freely(points, previous_index, anchor_was, anchor_is, before);
            let ghost mid = points@;
            Self::adjust_bezier_segment_freely(points, point_index, anchor_was, anchor_is, after);
            assert(reshaped(
                mid,
                points@,
                point_index as int,
                anchor_was,
                old(points)@[point_index as int].pos,
                old(points)@[next_of(old(points)@.len() as int, point_index as int)].pos,
            ));
        }
    }
}


impl Point {
    /// The end next to `point_index` that a continuity rule towards
    /// `update_direction` leaves where it is.
    fn staying_end(points: &[Point], point_index: usize, update_direction: UpdateDirection) -> (r:
        Slot)
        requires
            point_index < points.len(),
        ensures
            r == staying_end(points@, point_index as int, update_direction),
            has_slot(points@, r),
    {
        match update_direction {
            UpdateDirection::Left => Self::end_after(points, point_index),
            UpdateDirection::Right => Self::end_before(points, point_index),
        }
    }

    /// The end next to `point_index` that a continuity rule towards
    /// `update_direction` moves.
    fn moving_end(points: &[Point], point_index: usize, update_direction: UpdateDirection) -> (r:
        Slot)
        requires
            point_index < points.len(),
        ensures
            r == moving_end(points@, point_index as int, update_direction),
            has_slot(points@, r),
    {
        match update_direction {
            UpdateDirection::Left => Self::end_before(points, point_index),
            UpdateDirection::Right => Self::end_after(points, point_index),
        }
    }

    /// Brings the end that stays in line with the constraint of the edge
    /// that starts at `point_index`.
    fn align_staying_end(points: &mut [Point], point_index: usize, update_direction: UpdateDirection)
        requires
            point_index < old(points).len(),
        ensures
            aligned(old(points)@, final(points)@, point_index as int, update_direction),
            same_shape(old(points)@, final(points)@),
    {
        let stay = Self::staying_end(points, point_index, update_direction);
        let was = stay.read(points);
        let here = points[point_index].pos;
        match points[point_index].constraint {
            Some(EdgeConstraint::Horizontal) => {
                stay.write(points, set_height(was, here));
            },
            Some(EdgeConstraint::Vertical) => {
                stay.write(points, set_column(was, here));
            },
            Some(EdgeConstraint::ConstWidth(width)) => {
                let is_handle = match stay {
                    Slot::Handle(_, _) => true,
                    Slot::Vertex(_) => false,
                };
                if points[point_index].continuity_type == ContinuityType::C1 && update_direction
                    == UpdateDirection::Right && width > 0 && is_handle {
                    if !same_place(was, here) {
                        let new_position = Self::calculate_position_for_keeping_width(
                            width,
                            true,
                            here,
                            was,
                        );
                        stay.write(points, new_position);
                    }
                }
            },
            None => {},
        }
    }

    /// Keeps the two tangents at `point_index` in one direction: the end
    /// that stays is aligned, and the end that moves is put opposite to it,
    /// as far from the vertex as it was.
    fn adjust_g1_continuity(points: &mut [Point], point_index: usize, update_direction: UpdateDirection)
        requires
            point_index < old(points).len(),
            touches_curve(old(points)@, point_index as int),
            old(points)@[point_index as int].continuity_type == ContinuityType::G1,
        ensures
            continuity_applied(old(points)@, final(points)@, point_index as int, update_direction),
            same_shape(old(points)@, final(points)@),
    {
        Self::align_staying_end(points, point_index, update_direction);
        let ghost mid = points@;
        proof {
            lemma_ends_follow_shape(old(points)@, mid, point_index as int);
        }
        let stay = Self::staying_end(points, point_index, update_direction);
        let moving = Self::moving_end(points, point_index, update_direction);
        let continuity_point = points[point_index].pos;
        let end_to_stay = stay.read(points);
        if !same_place(end_to_stay, continuity_point) {
            let end_to_update = moving.read(points);
            let new_position = Self::new_position_for_adjusting_g1_continuity(
                continuity_point,
                end_to_stay,
                end_to_update,
            );
            moving.write(points, new_position);
        }
        assert(mirrored(mid, points@, point_index as int, update_direction));
    }

    /// Keeps the two tangents at `point_index` in one direction and their
    /// lengths in the ratio that the two ends ask for: the end that stays is
    /// aligned, and the end that moves is put opposite to it, at that ratio
    /// of its distance.
    fn adjust_c1_continuity(points: &mut [Point], point_index: usize, update_direction: UpdateDirection)
        requires
            point_index < old(points).len(),
            touches_curve(old(points)@, point_index as int),
            old(points)@[point_index as int].continuity_type == ContinuityType::C1,
        ensures
            continuity_applied(old(points)@, final(points)@, point_index as int, update_direction),
            same_shape(old(points)@, final(points)@),
    {
        Self::align_staying_end(points, point_index, update_direction);
        let ghost mid = points@;
        proof {
            lemma_ends_follow_shape(old(points)@, mid, point_index as int);
        }
        let stay = Self::staying_end(points, point_index, update_direction);
        let moving = Self::moving_end(points, point_index, update_direction);
        let continuity_point = points[point_index].pos;
        let end_to_stay = stay.read(points);
        if !same_place(end_to_stay, continuity_point) {
            let new_position = Self::new_position_for_adjusting_c1_continuity(
                continuity_point,
                end_to_stay,
                end_to_stay,
                LengthRatio::between(stay, moving),
            );
            moving.write(points, new_position);
        }
        assert(mirrored(mid, points@, point_index as int, update_direction));
    }

    /// Adjusts the ends next to `point_index` to the continuity that it asks
    /// for, where it is an endpoint of a curve segment.
    fn adjust_adjacent_bezier_segments_control_points(
        points: &mut [Point],
        point_index: usize,
        update_direction: UpdateDirection,
    )
        requires
            point_index < old(points).len(),
        ensures
            continuity_adjusted(old(points)@, final(points)@, point_index as int, update_direction),
            same_shape(old(points)@, final(points)@),
    {
        if Self::is_part_of_bezier_segment(points, point_index) {
            match points[point_index].continuity_type {
                ContinuityType::G0 => {},
                ContinuityType::C1 => {
                    Self::adjust_c1_continuity(points, point_index, update_direction);
                },
                ContinuityType::G1 => {
                    Self::adjust_g1_continuity(points, point_index, update_direction);
                },
            }
        }
    }
}


/// The index `j` steps before `i` on a contour of `n` vertices.
pub open spec fn steps_back(n: int, i: int, j: int) -> int {
    if j <= i {
        i - j
    } else {
        i - j + n
    }
}

/// The index `j` steps after `i` on a contour of `n` vertices.
pub open spec fn steps_forth(n: int, i: int, j: int) -> int {
    if i + j < n {
        i + j
    } else {
        i + j - n
    }
}

/// One step of the walk to the left, with the cursor at `left`: the edge
/// that arrives at `left` drags its start, and the continuity at that start
/// is adjusted towards the left.
pub open spec fn left_step(pre: Seq<Point>, post: Seq<Point>, left: int) -> bool {
    let start = previous_of(pre.len() as int, left);
    exists|mid: Seq<Point>|
        dragged(pre, mid, start, left, pre[start].constraint) && continuity_adjusted(
            mid,
            post,
            start,
            UpdateDirection::Left,
        )
}

/// One step of the walk to the right, with the cursor at `right`: the edge
/// that leaves `right` drags its end, and the continuity at that end is
/// adjusted towards the right.
pub open spec fn right_step(pre: Seq<Point>, post: Seq<Point>, right: int) -> bool {
    let end = next_of(pre.len() as int, right);
    exists|mid: Seq<Point>|
        dragged(pre, mid, end, right, pre[right].constraint) && continuity_adjusted(
            mid,
            post,
            end,
            UpdateDirection::Right,
        )
}

/// Whether the walk to the left from `origin` takes a step after `j` steps.
/// It does not once it has come round to `origin`. Otherwise it does if the
/// edge it has just handled or the edge it would handle next has a
/// constraint, or if an endpoint of that next edge is an endpoint of a
/// curve segment.
pub open spec fn left_goes_on(s: Seq<Point>, origin: int, j: int) -> bool {
    let n = s.len() as int;
    let left = steps_back(n, origin, j);
    let before = previous_of(n, left);
    &&& 0 <= j < n - 1
    &&& ({
        ||| j > 0 && s[left].constraint is Some
        ||| s[before].constraint is Some
        ||| touches_curve(s, left)
        ||| touches_curve(s, before)
    })
}

/// Whether the walk to the right from `origin` takes a step after `j`
/// steps: as for the walk to the left, with the edges that follow.
pub open spec fn right_goes_on(s: Seq<Point>, origin: int, j: int) -> bool {
    let n = s.len() as int;
    let right = steps_forth(n, origin, j);
    let after = next_of(n, right);
    &&& 0 <= j < n - 1
    &&& ({
        ||| j > 0 && s[previous_of(n, right)].constraint is Some
        ||| s[right].constraint is Some
        ||| touches_curve(s, right)
        ||| touches_curve(s, after)
    })
}

/// The number of steps of the walk to the left from `origin`, counted from
/// step `j` on.
pub open spec fn left_length_from(s: Seq<Point>, origin: int, j: int) -> int
    decreases s.len() - j,
{
    if left_goes_on(s, origin, j) {
        left_length_from(s, origin, j + 1)
    } else {
        j
    }
}

/// The number of steps of the walk to the right from `origin`, counted from
/// step `j` on.
pub open spec fn right_length_from(s: Seq<Point>, origin: int, j: int) -> int
    decreases s.len() - j,
{
    if right_goes_on(s, origin, j) {
        right_length_from(s, origin, j + 1)
    } else {
        j
    }
}

/// The number of steps that the walk to the left from `origin` takes. It
/// depends on the shape of the contour alone, and is less than the number
/// of vertices.
pub open spec fn left_length(s: Seq<Point>, origin: int) -> int {
    left_length_from(s, origin, 0)
}

/// The number of steps that the walk to the right from `origin` takes.
pub open spec fn right_length(s: Seq<Point>, origin: int) -> int {
    right_length_from(s, origin, 0)
}

/// The first `j` steps of the walk to the left from `origin` lead from
/// `start` to `current`.
pub open spec fn left_walk(start: Seq<Point>, current: Seq<Point>, origin: int, j: int) -> bool
    decreases j,
{
    if j <= 0 {
        current == start
    } else {
        let taken = j - 1;
        let cursor = steps_back(start.len() as int, origin, taken);
        exists|mid: Seq<Point>|
            left_walk(start, mid, origin, taken) && #[trigger] left_step(mid, current, cursor)
    }
}

/// The first `j` steps of the walk to the right from `origin` lead from
/// `start` to `current`.
pub open spec fn right_walk(start: Seq<Point>, current: Seq<Point>, origin: int, j: int) -> bool
    decreases j,
{
    if j <= 0 {
        current == start
    } else {
        let taken = j - 1;
        let cursor = steps_forth(start.len() as int, origin, taken);
        exists|mid: Seq<Point>|
            right_walk(start, mid, origin, taken) && #[trigger] right_step(mid, current, cursor)
    }
}

/// The whole walk to the left from `origin`: the continuity at `origin` is
/// adjusted towards the left, then the walk takes all its steps.
pub open spec fn walked_left(pre: Seq<Point>, post: Seq<Point>, origin: int) -> bool {
    exists|mid: Seq<Point>|
        continuity_adjusted(pre, mid, origin, UpdateDirection::Left) && left_walk(
            mid,
            post,
            origin,
            left_length(pre, origin),
        )
}

/// The whole walk to the right from `origin`: the continuity at `origin` is
/// adjusted towards the right, then the walk takes all its steps.
pub open spec fn walked_right(pre: Seq<Point>, post: Seq<Point>, origin: int) -> bool {
    exists|mid: Seq<Point>|
        continuity_adjusted(pre, mid, origin, UpdateDirection::Right) && right_walk(
            mid,
            post,
            origin,
            right_length(pre, origin),
        )
}

/// Both walks from `origin`, in the order that `left_first` gives. The
/// order matters: each walk may move what the other reads.
pub open spec fn propagated(pre: Seq<Point>, post: Seq<Point>, origin: int, left_first: bool) -> bool {
    exists|mid: Seq<Point>|
        if left_first {
            walked_left(pre, mid, origin) && walked_right(mid, post, origin)
        } else {
            walked_right(pre, mid, origin) && walked_left(mid, post, origin)
        }
}

/// Whether the walk to the left goes on depends on the shape alone.
pub proof fn lemma_left_goes_on_follows_shape(a: Seq<Point>, b: Seq<Point>, origin: int, j: int)
    requires
        same_shape(a, b),
        0 <= origin < a.len(),
    ensures
        left_goes_on(a, origin, j) == left_goes_on(b, origin, j),
{
    let n = a.len() as int;
    if 0 <= j < n - 1 {
        let left = steps_back(n, origin, j);
        let before = previous_of(n, left);
        lemma_ends_follow_shape(a, b, left);
        lemma_ends_follow_shape(a, b, before);
        assert(a[left].constraint == b[left].constraint);
        assert(a[before].constraint == b[before].constraint);
    }
}

/// Whether the walk to the right goes on depends on the shape alone.
pub proof fn lemma_right_goes_on_follows_shape(a: Seq<Point>, b: Seq<Point>, origin: int, j: int)
    requires
        same_shape(a, b),
        0 <= origin < a.len(),
    ensures
        right_goes_on(a, origin, j) == right_goes_on(b, origin, j),
{
    let n = a.len() as int;
    if 0 <= j < n - 1 {
        let right = steps_forth(n, origin, j);
        let after = next_of(n, right);
        let before = previous_of(n, right);
        lemma_ends_follow_shape(a, b, right);
        lemma_ends_follow_shape(a, b, after);
        assert(a[right].constraint == b[right].constraint);
        assert(a[before].constraint == b[before].constraint);
    }
}

/// A walk to the left that goes on at every step from `j` to `k` and not at
/// `k` has `k` steps.
pub proof fn lemma_left_length(s: Seq<Point>, origin: int, j: int, k: int)
    requires
        0 <= j <= k,
        forall|i: int| j <= i < k ==> left_goes_on(s, origin, i),
        !left_goes_on(s, origin, k),
    ensures
        left_length_from(s, origin, j) == k,
    decreases k - j,
{
    if j < k {
        lemma_left_length(s, origin, j + 1, k);
    }
}

/// A walk to the right that goes on at every step from `j` to `k` and not
/// at `k` has `k` steps.
pub proof fn lemma_right_length(s: Seq<Point>, origin: int, j: int, k: int)
    requires
        0 <= j <= k,
        forall|i: int| j <= i < k ==> right_goes_on(s, origin, i),
        !right_goes_on(s, origin, k),
    ensures
        right_length_from(s, origin, j) == k,
    decreases k - j,
{
    if j < k {
        lemma_right_length(s, origin, j + 1, k);
    }
}

impl Point {
    /// Lets the edge between `moved` and `fixed` drag `moved`.
    fn drag_vertex(
        points: &mut [Point],
        moved: usize,
        fixed: usize,
        constraint: Option<EdgeConstraint>,
    )
        requires
            moved < old(points).len(),
            fixed < old(points).len(),
        ensures
            dragged(old(points)@, final(points)@, moved as int, fixed as int, constraint),
            same_shape(old(points)@, final(points)@),
    {
        if let Some(constraint) = constraint {
            let anchor_was = points[moved].pos;
            Self::apply_constraint_diff(points, moved, fixed, &constraint);
            let ghost mid = points@;
            Self::adjust_adjacent_bezier_segments_freely(points, moved, anchor_was);
            assert(constrained(old(points)@, mid, moved as int, fixed as int, constraint)
                && freely_adjusted(mid, points@, moved as int, old(points)@[moved as int].pos));
        }
    }

    /// One step of the walk to the right: the edge that starts at
    /// `edge_start_index` acts on its end.
    fn adjust_moved_point_edge_start(points: &mut [Point], edge_start_index: usize)
        requires
            edge_start_index < old(points).len(),
        ensures
            right_step(old(points)@, final(points)@, edge_start_index as int),
            same_shape(old(points)@, final(points)@),
    {
        let constraint = points[edge_start_index].constraint;
        let edge_end_index = Self::get_next_index(points, edge_start_index);
        Self::drag_vertex(points, edge_end_index, edge_start_index, constraint);
        let ghost mid = points@;
        Self::adjust_adjacent_bezier_segments_control_points(
            points,
            edge_end_index,
            UpdateDirection::Right,
        );
        assert(dragged(
            old(points)@,
            mid,
            edge_end_index as int,
            edge_start_index as int,
            old(points)@[edge_start_index as int].constraint,
        ) && continuity_adjusted(mid, points@, edge_end_index as int, UpdateDirection::Right));
    }

    /// One step of the walk to the left: the edge that ends at
    /// `edge_end_index` acts on its start.
    fn adjust_moved_point_edge_end(points: &mut [Point], edge_end_index: usize)
        requires
            edge_end_index < old(points).len(),
        ensures
            left_step(old(points)@, final(points)@, edge_end_index as int),
            same_shape(old(points)@, final(points)@),
    {
        let edge_start_index = Self::get_previous_index(points, edge_end_index);
        let constraint = points[edge_start_index].constraint;
        Self::drag_vertex(points, edge_start_index, edge_end_index, constraint);
        let ghost mid = points@;
        Self::adjust_adjacent_bezier_segments_control_points(
            points,
            edge_start_index,
            UpdateDirection::Left,
        );
        assert(dragged(
            old(points)@,
            mid,
            edge_start_index as int,
            edge_end_index as int,
            old(points)@[edge_start_index as int].constraint,
        ) && continuity_adjusted(mid, points@, edge_start_index as int, UpdateDirection::Left));
    }

    /// Whether the walk to the left from `origin`, now at `left` after
    /// `steps` steps, takes another step.
    fn left_goes_on(points: &[Point], origin: usize, left: usize, steps: usize) -> (r: bool)
        requires
            origin < points.len(),
            steps < points.len(),
            left == steps_back(points.len() as int, origin as int, steps as int),
        ensures
            r == left_goes_on(points@, origin as int, steps as int),
    {
        if steps + 1 >= points.len() {
            return false;
        }
        let before = Self::get_previous_index(points, left);
        (steps > 0 && points[left].has_constraint()) || points[before].has_constraint()
            || Self::is_part_of_bezier_segment(points, left) || Self::is_part_of_bezier_segment(
            points,
            before,
        )
    }

    /// Whether the walk to the right from `origin`, now at `right` after
    /// `steps` steps, takes another step.
    fn right_goes_on(points: &[Point], origin: usize, right: usize, steps: usize) -> (r: bool)
        requires
            origin < points.len(),
            steps < points.len(),
            right == steps_forth(points.len() as int, origin as int, steps as int),
        ensures
            r == right_goes_on(points@, origin as int, steps as int),
    {
        if steps + 1 >= points.len() {
            return false;
        }
        let after = Self::get_next_index(points, right);
        let before = Self::get_previous_index(points, right);
        (steps > 0 && points[before].has_constraint()) || points[right].has_constraint()
            || Self::is_part_of_bezier_segment(points, right) || Self::is_part_of_bezier_segment(
            points,
            after,
        )
    }

    /// The walk to the left from `point_index`.
    fn adjust_adjacent_edges_after_position_update_only_left(points: &mut [Point], point_index: usize)
        requires
            point_index < old(points).len(),
        ensures
            walked_left(old(points)@, final(points)@, point_index as int),
            same_shape(old(points)@, final(points)@),
    {
        Self::adjust_adjacent_bezier_segments_control_points(
            points,
            point_index,
            UpdateDirection::Left,
        );
        let ghost start = points@;
        let mut left = point_index;
        let mut steps: usize = 0;
        while Self::left_goes_on(points, point_index, left, steps)
            invariant
                point_index < points.len(),
                steps < points.len(),
                left == steps_back(points.len() as int, point_index as int, steps as int),
                same_shape(old(points)@, points@),
                same_shape(start, points@),
                left_walk(start, points@, point_index as int, steps as int),
                forall|i: int| 0 <= i < steps ==> left_goes_on(old(points)@, point_index as int, i),
            decreases points.len() - steps,
        {
            proof {
                lemma_left_goes_on_follows_shape(
                    old(points)@,
                    points@,
                    point_index as int,
                    steps as int,
                );
            }
            let ghost before = points@;
            Self::adjust_moved_point_edge_end(points, left);
            left = Self::get_previous_index(points, left);
            steps += 1;
            assert(left_walk(start, before, point_index as int, steps - 1) && left_step(
                before,
                points@,
                steps_back(start.len() as int, point_index as int, steps - 1),
            ));
        }
        proof {
            lemma_left_goes_on_follows_shape(old(points)@, points@, point_index as int, steps as int);
            lemma_left_length(old(points)@, point_index as int, 0, steps as int);
        }
    }

    /// The walk to the right from `point_index`.
    fn adjust_adjacent_edges_after_position_update_only_right(points: &mut [Point], point_index: usize)
        requires
            point_index < old(points).len(),
        ensures
            walked_right(old(points)@, final(points)@, point_index as int),
            same_shape(old(points)@, final(points)@),
    {
        Self::adjust_adjacent_bezier_segments_control_points(
            points,
            point_index,
            UpdateDirection::Right,
        );
        let ghost start = points@;
        let mut right = point_index;
        let mut steps: usize = 0;
        while Self::right_goes_on(points, point_index, right, steps)
            invariant
                point_index < points.len(),
                steps < points.len(),
                right == steps_forth(points.len() as int, point_index as int, steps as int),
                same_shape(old(points)@, points@),
                same_shape(start, points@),
                right_walk(start, points@, point_index as int, steps as int),
                forall|i: int| 0 <= i < steps ==> right_goes_on(old(points)@, point_index as int, i),
            decreases points.len() - steps,
        {
            proof {
                lemma_right_goes_on_follows_shape(
                    old(points)@,
                    points@,
                    point_index as int,
                    steps as int,
                );
            }
            let ghost before = points@;
            Self::adjust_moved_point_edge_start(points, right);
            right = Self::get_next_index(points, right);
            steps += 1;
            assert(right_walk(start, before, point_index as int, steps - 1) && right_step(
                before,
                points@,
                steps_forth(start.len() as int, point_index as int, steps - 1),
            ));
        }
        proof {
            lemma_right_goes_on_follows_shape(old(points)@, points@, point_index as int, steps as int);
            lemma_right_length(old(points)@, point_index as int, 0, steps as int);
        }
    }

    /// Both walks from `point_index`, the walk to the left first.
    fn adjust_adjacent_edges_after_position_update(points: &mut [Point], point_index: usize)
        requires
            point_index < old(points).len(),
        ensures
            propagated(old(points)@, final(points)@, point_index as int, true),
            same_shape(old(points)@, final(points)@),
    {
        Self::adjust_adjacent_edges_after_position_update_only_left(points, point_index);
        let ghost mid = points@;
        Self::adjust_adjacent_edges_after_position_update_only_right(points, point_index);
        assert(walked_left(old(points)@, mid, point_index as int) && walked_right(
            mid,
            points@,
            point_index as int,
        ));
    }

    /// Both walks from `point_index`, the walk to the right first.
    fn adjust_adjacent_edges_after_position_update_right_first(
        points: &mut [Point],
        point_index: usize,
    )
        requires
            point_index < old(points).len(),
        ensures
            propagated(old(points)@, final(points)@, point_index as int, false),
            same_shape(old(points)@, final(points)@),
    {
        Self::adjust_adjacent_edges_after_position_update_only_right(points, point_index);
        let ghost mid = points@;
        Self::adjust_adjacent_edges_after_position_update_only_left(points, point_index);
        assert(walked_right(old(points)@, mid, point_index as int) && walked_left(
            mid,
            points@,
            point_index as int,
        ));
    }
}


/// The continuity at `origin` adjusted to both sides, first towards the
/// left, then towards the right.
pub open spec fn continuity_restored(pre: Seq<Point>, post: Seq<Point>, origin: int) -> bool {
    exists|mid: Seq<Point>|
        continuity_adjusted(pre, mid, origin, UpdateDirection::Left) && continuity_adjusted(
            mid,
            post,
            origin,
            UpdateDirection::Right,
        )
}

/// What moving vertex `origin` to `new_position` makes of the contour. The
/// vertex is put there. The curve segments next to it are freely adjusted
/// to its new place and the continuity at it is restored. Then both walks
/// start from it, the walk to the left first.
pub open spec fn vertex_moved(pre: Seq<Point>, post: Seq<Point>, origin: int, new_position: Pos2) -> bool {
    let placed = with_position(pre, Slot::Vertex(origin as usize), new_position);
    let was = pre[origin].pos;
    exists|reshaped: Seq<Point>, restored: Seq<Point>|
        {
            &&& #[trigger] freely_adjusted(placed, reshaped, origin, was)
            &&& continuity_restored(reshaped, restored, origin)
            &&& #[trigger] propagated(restored, post, origin, true)
        }
}

/// Handle `k` of the curve segment that starts at `vertex`, brought in line
/// with the straight edge on the other side of the vertex next to it. That
/// vertex is `vertex` itself for the first handle and the one after it for
/// the second. Where it asks for `G1` or `C1` and that edge is horizontal,
/// the handle takes the ordinate of the vertex; where the edge is vertical,
/// the abscissa. Otherwise nothing happens.
pub open spec fn handle_snapped(pre: Seq<Point>, post: Seq<Point>, vertex: int, k: usize) -> bool {
    let n = pre.len() as int;
    let slot = Slot::Handle(vertex as usize, k);
    let was = position_at(pre, slot);
    let corner = if k == 0 {
        vertex
    } else {
        next_of(n, vertex)
    };
    let edge = if k == 0 {
        previous_of(n, vertex)
    } else {
        next_of(n, vertex)
    };
    if pre[corner].continuity_type != ContinuityType::G0 {
        match pre[edge].constraint {
            Some(EdgeConstraint::Horizontal) => post == with_position(
                pre,
                slot,
                at_height_of(was, pre[corner].pos),
            ),
            Some(EdgeConstraint::Vertical) => post == with_position(
                pre,
                slot,
                at_column_of(was, pre[corner].pos),
            ),
            _ => post == pre,
        }
    } else {
        post == pre
    }
}

/// What follows when handle `k` of the curve segment that starts at
/// `vertex` has been moved: the handle is snapped, the continuity at
/// `vertex` is adjusted towards the side of the handle (left for the first,
/// right for the second), and both walks start from `vertex`, the walk to
/// that side first.
pub open spec fn handle_moved(pre: Seq<Point>, post: Seq<Point>, vertex: int, k: usize) -> bool {
    let direction = if k == 0 {
        UpdateDirection::Left
    } else {
        UpdateDirection::Right
    };
    let left_first = k == 0;
    exists|snapped: Seq<Point>, adjusted: Seq<Point>|
        {
            &&& #[trigger] handle_snapped(pre, snapped, vertex, k)
            &&& continuity_adjusted(snapped, adjusted, vertex, direction)
            &&& #[trigger] propagated(adjusted, post, vertex, left_first)
        }
}

/// Why an edit was not made.
#[derive(Clone, Copy, Debug, PartialEq, Eq, Structural)]
pub enum EditError {
    /// The edge that starts at the vertex is no curve segment, so it has no
    /// handle to move.
    MissingCurve,
}

impl Point {
    /// Moves vertex `point_index` to `new_position` and lets the contour
    /// follow.
    pub fn update_position(points: &mut [Point], point_index: usize, new_position: Pos2)
        requires
            point_index < old(points).len(),
        ensures
            vertex_moved(old(points)@, final(points)@, point_index as int, new_position),
            same_shape(old(points)@, final(points)@),
    {
        let anchor_was = points[point_index].pos;
        Slot::Vertex(point_index).write(points, new_position);
        let ghost placed = points@;
        assert(placed == with_position(
            old(points)@,
            Slot::Vertex(point_index as int as usize),
            new_position,
        ));
        Self::adjust_adjacent_bezier_segments_freely(points, point_index, anchor_was);
        let ghost reshaped = points@;
        Self::adjust_adjacent_bezier_segments_control_points(
            points,
            point_index,
            UpdateDirection::Left,
        );
        let ghost mid = points@;
        Self::adjust_adjacent_bezier_segments_control_points(
            points,
            point_index,
            UpdateDirection::Right,
        );
        let ghost restored = points@;
        assert(continuity_adjusted(reshaped, mid, point_index as int, UpdateDirection::Left)
            && continuity_adjusted(mid, restored, point_index as int, UpdateDirection::Right));
        Self::adjust_adjacent_edges_after_position_update(points, point_index);
        assert(freely_adjusted(placed, reshaped, point_index as int, anchor_was)
            && continuity_restored(reshaped, restored, point_index as int) && propagated(
            restored,
            points@,
            point_index as int,
            true,
        ));
    }

    /// Brings a handle that has just been moved in line with the straight
    /// edge across the vertex next to it.
    fn snap_moved_control_point(points: &mut [Point], point_index: usize, inner_point_index: usize)
        requires
            point_index < old(points).len(),
            inner_point_index < 2,
            old(points)@[point_index as int].bezier_data is Some,
        ensures
            handle_snapped(old(points)@, final(points)@, point_index as int, inner_point_index),
            same_shape(old(points)@, final(points)@),
    {
        let slot = Slot::Handle(point_index, inner_point_index);
        let was = slot.read(points);
        let next_index = Self::get_next_index(points, point_index);
        let corner = if inner_point_index == 0 {
            point_index
        } else {
            next_index
        };
        let edge = if inner_point_index == 0 {
            Self::get_previous_index(points, point_index)
        } else {
            next_index
        };
        if points[corner].continuity_type != ContinuityType::G0 {
            let here = points[corner].pos;
            match points[edge].constraint {
                Some(EdgeConstraint::Horizontal) => {
                    slot.write(points, set_height(was, here));
                },
                Some(EdgeConstraint::Vertical) => {
                    slot.write(points, set_column(was, here));
                },
                _ => {},
            }
        }
    }

    /// Lets the contour follow after handle `inner_point_index` of the curve
    /// segment that starts at `point_index` has been put at a new position.
    pub fn update_position_after_control_point_moved(
        points: &mut [Point],
        point_index: usize,
        inner_point_index: usize,
    )
        requires
            point_index < old(points).len(),
            inner_point_index < 2,
            old(points)@[point_index as int].bezier_data is Some,
        ensures
            handle_moved(old(points)@, final(points)@, point_index as int, inner_point_index),
            same_shape(old(points)@, final(points)@),
    {
        let direction = if inner_point_index == 0 {
            UpdateDirection::Left
        } else {
            UpdateDirection::Right
        };
        Self::snap_moved_control_point(points, point_index, inner_point_index);
        let ghost snapped = points@;
        Self::adjust_adjacent_bezier_segments_control_points(points, point_index, direction);
        let ghost adjusted = points@;
        if inner_point_index == 0 {
            Self::adjust_adjacent_edges_after_position_update(points, point_index);
        } else {
            Self::adjust_adjacent_edges_after_position_update_right_first(points, point_index);
        }
        assert(handle_snapped(old(points)@, snapped, point_index as int, inner_point_index)
            && continuity_adjusted(snapped, adjusted, point_index as int, direction) && propagated(
            adjusted,
            points@,
            point_index as int,
            inner_point_index == 0,
        ));
    }

    /// Moves handle `inner_point_index` of the curve segment that starts at
    /// `point_index` to `new_position` and lets the contour follow. Where
    /// the edge is no curve segment, nothing is changed and the error says
    /// so.
    pub fn move_curve_handle(
        points: &mut [Point],
        point_index: usize,
        inner_point_index: usize,
        new_position: Pos2,
    ) -> (r: Result<(), EditError>)
        requires
            point_index < old(points).len(),
            inner_point_index < 2,
        ensures
            r is Ok <==> old(points)@[point_index as int].bezier_data is Some,
            r is Ok ==> handle_moved(
                with_position(
                    old(points)@,
                    Slot::Handle(point_index, inner_point_index),
                    new_position,
                ),
                final(points)@,
                point_index as int,
                inner_point_index,
            ),
            r is Err ==> r == Err::<(), EditError>(EditError::MissingCurve) && final(points)@ == old(
                points,
            )@,
            same_shape(old(points)@, final(points)@),
    {
        if points[point_index].is_start_of_bezier_segment() {
            Slot::Handle(point_index, inner_point_index).write(points, new_position);
            Self::update_position_after_control_point_moved(points, point_index, inner_point_index);
            Ok(())
        } else {
            Err(EditError::MissingCurve)
        }
    }
}

} // verus!
