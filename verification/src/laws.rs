//! What holds of the edits in general, proved from their specifications.
use crate::frames::{
    answers, copied, is_well_formed, is_well_formed_at, lemma_continuity_left, lemma_continuity_right,
    lemma_dragged, lemma_freely_adjusted, lemma_left_step, lemma_right_step, lemma_shape, lemma_shape_chain,
};
use crate::geometry::{at_column_of, at_height_of, coincide, is_at_width, is_carried};
use crate::point::{next_of, previous_of, touches_curve, ContinuityType, EdgeConstraint, Point};
use crate::propagation::{
    aligned, constrained, continues, continuity_adjusted, continuity_restored, dragged,
    handle_moved, handle_snapped, freely_adjusted, left_goes_on,
    left_length, left_length_from, left_step, left_walk, lemma_left_goes_on_follows_shape,
    lemma_left_length, mirrored,
    position_at, with_handle, LengthRatio,
    lemma_right_goes_on_follows_shape, propagated, reshaped, right_goes_on, right_length,
    right_length_from, right_step, right_walk, same_shape, steps_back, steps_forth, vertex_moved,
    walked_left, walked_right, with_position, Slot, UpdateDirection,
};
use crate::topology::{cleared, with_vertex_on_edge, without_vertex};
use egui::Pos2;
use vstd::prelude::*;

verus! {

/// Splitting an edge and removing the new vertex at once gives back the
/// contour that was split, but for the constraint and the handles of the
/// edge, which the split has cleared: the same number of vertices, each at
/// its position.
pub proof fn law_split_then_remove_restores(s: Seq<Point>, i: int, pos: Pos2)
    requires
        s.len() >= 3,
        0 <= i < s.len(),
    ensures
        without_vertex(with_vertex_on_edge(s, i, pos), next_of(s.len() as int, i)) == s.update(
            i,
            cleared(s[i]),
        ),
        without_vertex(with_vertex_on_edge(s, i, pos), next_of(s.len() as int, i)).len() == s.len(),
        forall|j: int|
            0 <= j < s.len() ==> (#[trigger] without_vertex(
                with_vertex_on_edge(s, i, pos),
                next_of(s.len() as int, i),
            )[j]).pos == s[j].pos,
{
    let n = s.len() as int;
    let at = next_of(n, i);
    let split = with_vertex_on_edge(s, i, pos);
    let back = without_vertex(split, at);
    let before = previous_of(n + 1, at);
    assert(split[before] == cleared(s[i]));
    assert(back =~= s.update(i, cleared(s[i])));
}

/// How many steps after `origin` vertex `i` comes, on a contour of `n`
/// vertices.
pub open spec fn ahead(n: int, origin: int, i: int) -> int {
    if i >= origin {
        i - origin
    } else {
        i - origin + n
    }
}

/// How many steps before `origin` vertex `i` comes, on a contour of `n`
/// vertices.
pub open spec fn behind(n: int, origin: int, i: int) -> int {
    if i <= origin {
        origin - i
    } else {
        origin - i + n
    }
}

/// Whether the edge from `start` to `end` satisfies `constraint`, as far as
/// that can be said exactly: the same ordinate at both ends of a horizontal
/// edge, the same abscissa at both ends of a vertical one. Of a width this
/// says nothing.
pub open spec fn satisfies(constraint: EdgeConstraint, start: Pos2, end: Pos2) -> bool {
    match constraint {
        EdgeConstraint::Horizontal => start.y == end.y,
        EdgeConstraint::Vertical => start.x == end.x,
        EdgeConstraint::ConstWidth(_) => true,
    }
}

/// Whether the edge that starts at vertex `i` has no constraint.
pub open spec fn is_free_at(s: Seq<Point>, i: int) -> bool {
    s[i].constraint is None
}

/// Whether no edge of the contour has a constraint.
pub open spec fn is_free(s: Seq<Point>) -> bool {
    forall|i: int| 0 <= i < s.len() ==> #[trigger] is_free_at(s, i)
}

/// Whether the walks from `origin` meet no vertex at which a continuity
/// rule acts.
pub open spec fn is_quiet_around(s: Seq<Point>, origin: int) -> bool {
    let n = s.len() as int;
    forall|i: int|
        0 <= i < n && (1 <= behind(n, origin, i) <= left_length(s, origin) || 1 <= ahead(n, origin, i)
            <= right_length(s, origin)) ==> !#[trigger] answers(s, i)
}

/// Whether the edge that starts at vertex `i` leaves its endpoints where
/// they are: it has no constraint, or it is horizontal or vertical and
/// satisfies its constraint. An edge of constant width computes a position
/// whenever it is applied, so it is never known to.
pub open spec fn edge_is_at_rest(s: Seq<Point>, i: int) -> bool {
    match s[i].constraint {
        Some(EdgeConstraint::ConstWidth(_)) => false,
        Some(c) => satisfies(c, s[i].pos, s[next_of(s.len() as int, i)].pos),
        None => true,
    }
}

/// Whether the curve segments next to vertex `v` stay as they are when an
/// edge puts `v` where it is already: the coordinates of `v` are numbers, so
/// that it is seen not to have left its place, or there is nothing to
/// adjust freely at `v`.
pub open spec fn holds_still(s: Seq<Point>, v: int) -> bool {
    coincide(s[v].pos, s[v].pos) || s[v].continuity_type != ContinuityType::G0 || !touches_curve(
        s,
        v,
    )
}

/// Whether the step of the walk to the left that handles the edge starting
/// at `i` finds nothing to do.
pub open spec fn rests_towards_start(s: Seq<Point>, i: int) -> bool {
    &&& edge_is_at_rest(s, i)
    &&& s[i].constraint is Some ==> holds_still(s, i)
    &&& !answers(s, i)
}

/// Whether the step of the walk to the right that handles the edge starting
/// at `i` finds nothing to do.
pub open spec fn rests_towards_end(s: Seq<Point>, i: int) -> bool {
    let end = next_of(s.len() as int, i);
    &&& edge_is_at_rest(s, i)
    &&& s[i].constraint is Some ==> holds_still(s, end)
    &&& !answers(s, end)
}

/// Whether no step of the walk to the left from `origin` finds anything to
/// do.
pub open spec fn left_walk_rests(s: Seq<Point>, origin: int) -> bool {
    let n = s.len() as int;
    forall|i: int|
        0 <= i < n && 1 <= behind(n, origin, i) <= left_length(s, origin)
            ==> #[trigger] rests_towards_start(s, i)
}

/// Whether no step of the walk to the right from `origin` finds anything to
/// do.
pub open spec fn right_walk_rests(s: Seq<Point>, origin: int) -> bool {
    let n = s.len() as int;
    forall|i: int|
        0 <= i < n && ahead(n, origin, i) < right_length(s, origin)
            ==> #[trigger] rests_towards_end(s, i)
}

/// Whether the contour is at rest as far as the walks from `origin` go: no
/// continuity rule acts at `origin`, and neither walk finds anything to do.
pub open spec fn is_at_rest_around(s: Seq<Point>, origin: int) -> bool {
    &&& !answers(s, origin)
    &&& left_walk_rests(s, origin)
    &&& right_walk_rests(s, origin)
}

/// The walk to the left takes fewer steps than the contour has vertices.
pub proof fn lemma_left_length_bound(s: Seq<Point>, origin: int, j: int)
    requires
        0 <= j < s.len(),
    ensures
        j <= left_length_from(s, origin, j) < s.len(),
    decreases s.len() - j,
{
    if left_goes_on(s, origin, j) {
        lemma_left_length_bound(s, origin, j + 1);
    }
}

/// The walk to the right takes fewer steps than the contour has vertices.
pub proof fn lemma_right_length_bound(s: Seq<Point>, origin: int, j: int)
    requires
        0 <= j < s.len(),
    ensures
        j <= right_length_from(s, origin, j) < s.len(),
    decreases s.len() - j,
{
    if right_goes_on(s, origin, j) {
        lemma_right_length_bound(s, origin, j + 1);
    }
}

/// A free adjustment at a vertex that has not left its place changes
/// nothing, where the vertex holds still.
pub proof fn lemma_rest_free_adjustment(pre: Seq<Point>, post: Seq<Point>, v: int)
    requires
        0 <= v < pre.len(),
        holds_still(pre, v),
        freely_adjusted(pre, post, v, pre[v].pos),
    ensures
        post == pre,
{
    if pre[v].continuity_type == ContinuityType::G0 {
        let n = pre.len() as int;
        let before = previous_of(n, v);
        let mid = choose|mid: Seq<Point>|
            {
                &&& reshaped(pre, mid, before, pre[v].pos, pre[v].pos, pre[before].pos)
                &&& reshaped(mid, post, v, pre[v].pos, pre[v].pos, pre[next_of(n, v)].pos)
            };
        assert(mid == pre);
    }
}

/// An edge at rest drags neither of its endpoints, where the dragged one
/// holds still.
pub proof fn lemma_rest_drag(pre: Seq<Point>, post: Seq<Point>, edge_start: int, towards_start: bool)
    requires
        pre.len() <= usize::MAX,
        0 <= edge_start < pre.len(),
        edge_is_at_rest(pre, edge_start),
        ({
            let edge_end = next_of(pre.len() as int, edge_start);
            if towards_start {
                &&& pre[edge_start].constraint is Some ==> holds_still(pre, edge_start)
                &&& dragged(pre, post, edge_start, edge_end, pre[edge_start].constraint)
            } else {
                &&& pre[edge_start].constraint is Some ==> holds_still(pre, edge_end)
                &&& dragged(pre, post, edge_end, edge_start, pre[edge_start].constraint)
            }
        }),
    ensures
        post == pre,
{
    let n = pre.len() as int;
    let edge_end = next_of(n, edge_start);
    let moved = if towards_start {
        edge_start
    } else {
        edge_end
    };
    let fixed = if towards_start {
        edge_end
    } else {
        edge_start
    };
    match pre[edge_start].constraint {
        Some(c) => {
            let mid = choose|mid: Seq<Point>|
                constrained(pre, mid, moved, fixed, c) && freely_adjusted(
                    mid,
                    post,
                    moved,
                    pre[moved].pos,
                );
            assert(pre[moved].pos == match c {
                EdgeConstraint::Horizontal => at_height_of(pre[moved].pos, pre[fixed].pos),
                _ => at_column_of(pre[moved].pos, pre[fixed].pos),
            });
            assert(mid =~= pre);
            lemma_rest_free_adjustment(pre, post, moved);
        },
        None => {},
    }
}

/// A step of the walk to the left that finds nothing to do changes nothing.
pub proof fn lemma_rest_left_step(pre: Seq<Point>, post: Seq<Point>, left: int)
    requires
        pre.len() <= usize::MAX,
        0 <= left < pre.len(),
        rests_towards_start(pre, previous_of(pre.len() as int, left)),
        left_step(pre, post, left),
    ensures
        post == pre,
{
    let n = pre.len() as int;
    let edge_start = previous_of(n, left);
    let mid = choose|mid: Seq<Point>|
        dragged(pre, mid, edge_start, left, pre[edge_start].constraint) && continuity_adjusted(
            mid,
            post,
            edge_start,
            UpdateDirection::Left,
        );
    assert(next_of(n, edge_start) == left);
    lemma_rest_drag(pre, mid, edge_start, true);
}

/// A step of the walk to the right that finds nothing to do changes
/// nothing.
pub proof fn lemma_rest_right_step(pre: Seq<Point>, post: Seq<Point>, right: int)
    requires
        pre.len() <= usize::MAX,
        0 <= right < pre.len(),
        rests_towards_end(pre, right),
        right_step(pre, post, right),
    ensures
        post == pre,
{
    let n = pre.len() as int;
    let edge_end = next_of(n, right);
    let mid = choose|mid: Seq<Point>|
        dragged(pre, mid, edge_end, right, pre[right].constraint) && continuity_adjusted(
            mid,
            post,
            edge_end,
            UpdateDirection::Right,
        );
    lemma_rest_drag(pre, mid, right, false);
}

/// The first `j` steps of the walk to the left change nothing if none of
/// them finds anything to do.
pub proof fn lemma_rest_left_walk(start: Seq<Point>, current: Seq<Point>, origin: int, j: int)
    requires
        start.len() <= usize::MAX,
        0 <= origin < start.len(),
        0 <= j < start.len(),
        forall|i: int|
            0 <= i < start.len() && 1 <= behind(start.len() as int, origin, i) <= j
                ==> #[trigger] rests_towards_start(start, i),
        left_walk(start, current, origin, j),
    ensures
        current == start,
    decreases j,
{
    if j > 0 {
        let n = start.len() as int;
        let cursor = steps_back(n, origin, j - 1);
        let mid = choose|mid: Seq<Point>|
            left_walk(start, mid, origin, j - 1) && #[trigger] left_step(mid, current, cursor);
        lemma_rest_left_walk(start, mid, origin, j - 1);
        let edge_start = previous_of(n, cursor);
        assert(behind(n, origin, edge_start) == j);
        assert(rests_towards_start(start, edge_start));
        lemma_rest_left_step(start, current, cursor);
    }
}

/// The first `j` steps of the walk to the right change nothing if none of
/// them finds anything to do.
pub proof fn lemma_rest_right_walk(start: Seq<Point>, current: Seq<Point>, origin: int, j: int)
    requires
        start.len() <= usize::MAX,
        0 <= origin < start.len(),
        0 <= j < start.len(),
        forall|i: int|
            0 <= i < start.len() && ahead(start.len() as int, origin, i) < j
                ==> #[trigger] rests_towards_end(start, i),
        right_walk(start, current, origin, j),
    ensures
        current == start,
    decreases j,
{
    if j > 0 {
        let n = start.len() as int;
        let cursor = steps_forth(n, origin, j - 1);
        let mid = choose|mid: Seq<Point>|
            right_walk(start, mid, origin, j - 1) && #[trigger] right_step(mid, current, cursor);
        lemma_rest_right_walk(start, mid, origin, j - 1);
        assert(ahead(n, origin, cursor) == j - 1);
        assert(rests_towards_end(start, cursor));
        lemma_rest_right_step(start, current, cursor);
    }
}

/// The whole walk to the left changes nothing if no continuity rule acts
/// at its origin and none of its steps finds anything to do.
pub proof fn lemma_rest_walked_left(pre: Seq<Point>, post: Seq<Point>, origin: int)
    requires
        pre.len() <= usize::MAX,
        0 <= origin < pre.len(),
        !answers(pre, origin),
        left_walk_rests(pre, origin),
        walked_left(pre, post, origin),
    ensures
        post == pre,
{
    lemma_left_length_bound(pre, origin, 0);
    let from = choose|from: Seq<Point>|
        continuity_adjusted(pre, from, origin, UpdateDirection::Left) && left_walk(
            from,
            post,
            origin,
            left_length(pre, origin),
        );
    lemma_rest_left_walk(pre, post, origin, left_length(pre, origin));
}

/// The whole walk to the right changes nothing if no continuity rule acts
/// at its origin and none of its steps finds anything to do.
pub proof fn lemma_rest_walked_right(pre: Seq<Point>, post: Seq<Point>, origin: int)
    requires
        pre.len() <= usize::MAX,
        0 <= origin < pre.len(),
        !answers(pre, origin),
        right_walk_rests(pre, origin),
        walked_right(pre, post, origin),
    ensures
        post == pre,
{
    lemma_right_length_bound(pre, origin, 0);
    let from = choose|from: Seq<Point>|
        continuity_adjusted(pre, from, origin, UpdateDirection::Right) && right_walk(
            from,
            post,
            origin,
            right_length(pre, origin),
        );
    lemma_rest_right_walk(pre, post, origin, right_length(pre, origin));
}

/// Both walks change nothing on a contour that is at rest around their
/// origin.
pub proof fn lemma_rest_propagation(pre: Seq<Point>, post: Seq<Point>, origin: int, left_first: bool)
    requires
        pre.len() <= usize::MAX,
        0 <= origin < pre.len(),
        is_at_rest_around(pre, origin),
        propagated(pre, post, origin, left_first),
    ensures
        post == pre,
{
    let mid = choose|mid: Seq<Point>|
        if left_first {
            walked_left(pre, mid, origin) && walked_right(mid, post, origin)
        } else {
            walked_right(pre, mid, origin) && walked_left(mid, post, origin)
        };
    if left_first {
        lemma_rest_walked_left(pre, mid, origin);
        lemma_rest_walked_right(pre, post, origin);
    } else {
        lemma_rest_walked_right(pre, mid, origin);
        lemma_rest_walked_left(pre, post, origin);
    }
}

/// What follows a vertex that has been put at its place on a contour that
/// is at rest around it: nothing, provided that the free adjustment at the
/// vertex has nothing to do.
pub proof fn lemma_rest_after_placing(
    placed: Seq<Point>,
    post: Seq<Point>,
    origin: int,
    was: Pos2,
    left_first: bool,
)
    requires
        0 <= origin < placed.len() <= usize::MAX,
        is_at_rest_around(placed, origin),
        !touches_curve(placed, origin) || coincide(was, placed[origin].pos),
        exists|reshaped_to: Seq<Point>, restored: Seq<Point>|
            {
                &&& #[trigger] freely_adjusted(placed, reshaped_to, origin, was)
                &&& continuity_restored(reshaped_to, restored, origin)
                &&& #[trigger] propagated(restored, post, origin, left_first)
            },
    ensures
        post == placed,
{
    let n = placed.len() as int;
    let (reshaped_to, restored) = choose|reshaped_to: Seq<Point>, restored: Seq<Point>|
        {
            &&& #[trigger] freely_adjusted(placed, reshaped_to, origin, was)
            &&& continuity_restored(reshaped_to, restored, origin)
            &&& #[trigger] propagated(restored, post, origin, left_first)
        };
    if placed[origin].continuity_type == ContinuityType::G0 {
        let before = previous_of(n, origin);
        let mid = choose|mid: Seq<Point>|
            {
                &&& reshaped(placed, mid, before, was, placed[origin].pos, placed[before].pos)
                &&& reshaped(
                    mid,
                    reshaped_to,
                    origin,
                    was,
                    placed[origin].pos,
                    placed[next_of(n, origin)].pos,
                )
            };
        assert(mid == placed);
    }
    assert(reshaped_to == placed);
    let mid = choose|mid: Seq<Point>|
        continuity_adjusted(placed, mid, origin, UpdateDirection::Left) && continuity_adjusted(
            mid,
            restored,
            origin,
            UpdateDirection::Right,
        );
    lemma_rest_propagation(placed, post, origin, left_first);
}

/// On a contour without constraints, moving a vertex changes the position
/// of that vertex and nothing else, provided that the vertex is no endpoint
/// of a curve segment and that the walks from it meet no vertex at which a
/// continuity rule acts. Without constraints the walks go as far as the
/// endpoints of curve segments follow one another.
pub proof fn law_free_contour_moves_one_vertex(
    pre: Seq<Point>,
    post: Seq<Point>,
    origin: int,
    new_position: Pos2,
)
    requires
        0 <= origin < pre.len() <= usize::MAX,
        is_free(pre),
        !touches_curve(pre, origin),
        is_quiet_around(pre, origin),
        vertex_moved(pre, post, origin, new_position),
    ensures
        post == with_position(pre, Slot::Vertex(origin as usize), new_position),
{
    let n = pre.len() as int;
    let placed = with_position(pre, Slot::Vertex(origin as usize), new_position);
    assert(same_shape(pre, placed));
    lemma_shape(pre, placed);
    lemma_left_length_follows_shape(pre, placed, origin, 0);
    lemma_right_length_follows_shape(pre, placed, origin, 0);
    lemma_right_length_bound(pre, origin, 0);
    assert forall|i: int|
        0 <= i < n && 1 <= behind(n, origin, i) <= left_length(placed, origin)
        implies #[trigger] rests_towards_start(placed, i) by {
        assert(is_free_at(pre, i));
        assert(!answers(pre, i));
        assert(answers(pre, i) == answers(placed, i));
    }
    assert forall|i: int|
        0 <= i < n && ahead(n, origin, i) < right_length(placed, origin)
        implies #[trigger] rests_towards_end(placed, i) by {
        let end = next_of(n, i);
        assert(is_free_at(pre, i));
        assert(ahead(n, origin, end) == ahead(n, origin, i) + 1);
        assert(!answers(pre, end));
        assert(answers(pre, end) == answers(placed, end));
    }
    assert(answers(pre, origin) == answers(placed, origin));
    let before = previous_of(n, origin);
    assert(placed[before].bezier_data == pre[before].bezier_data);
    lemma_rest_after_placing(
        placed,
        post,
        origin,
        pre[origin].pos,
        true,
    );
}

/// Moving a vertex to the position that it has changes nothing, on a
/// contour that is at rest around the vertex, provided that the
/// coordinates of the vertex are numbers or that it is no endpoint of a
/// curve segment.
pub proof fn law_move_to_own_position_changes_nothing(pre: Seq<Point>, post: Seq<Point>, origin: int)
    requires
        0 <= origin < pre.len() <= usize::MAX,
        is_at_rest_around(pre, origin),
        coincide(pre[origin].pos, pre[origin].pos) || !touches_curve(pre, origin),
        vertex_moved(pre, post, origin, pre[origin].pos),
    ensures
        post == pre,
{
    let placed = with_position(pre, Slot::Vertex(origin as usize), pre[origin].pos);
    assert(placed =~= pre);
    lemma_rest_after_placing(
        pre,
        post,
        origin,
        pre[origin].pos,
        true,
    );
}

/// Whether an edge with constraint `c` that drags an endpoint leaves alone
/// the coordinate that `axis` compares: it has no constraint, or it is
/// vertical where `axis` is horizontal, or horizontal where `axis` is
/// vertical.
pub open spec fn spares(c: Option<EdgeConstraint>, axis: EdgeConstraint) -> bool {
    match (c, axis) {
        (None, _) => true,
        (Some(EdgeConstraint::Vertical), EdgeConstraint::Horizontal) => true,
        (Some(EdgeConstraint::Horizontal), EdgeConstraint::Vertical) => true,
        _ => false,
    }
}

/// Whether `axis` is one of the two constraints that compare a coordinate.
pub open spec fn is_axis(axis: EdgeConstraint) -> bool {
    axis == EdgeConstraint::Horizontal || axis == EdgeConstraint::Vertical
}

/// Whether the continuity rule at vertex `v` moves the vertex after `v`: it
/// acts at `v`, and the edge that leaves `v` is straight.
pub open spec fn pushes_next(s: Seq<Point>, v: int) -> bool {
    answers(s, v) && s[v].bezier_data is None
}

/// Whether the continuity rule at vertex `v` moves the vertex before `v`:
/// it acts at `v`, and the edge that arrives at `v` is straight.
pub open spec fn pushes_previous(s: Seq<Point>, v: int) -> bool {
    answers(s, v) && s[previous_of(s.len() as int, v)].bezier_data is None
}

/// Whether the walks from the start `a` of an edge leave the edge as the
/// first step to the right makes it. The walk to the left runs before that
/// step and does no harm. The walk to the right fails to if it comes round
/// the contour: it takes all its steps, and at the last the continuity rule
/// at the vertex before `a` moves `a`.
pub open spec fn stays_clear_of_edge_from_start(s: Seq<Point>, a: int) -> bool {
    let n = s.len() as int;
    right_length(s, a) == n - 1 ==> !pushes_next(s, previous_of(n, a))
}

/// Whether the walks from the end `b` of an edge leave the edge as the
/// first step to the left makes it. Either walk fails to if it comes round
/// the contour. The walk to the left does if it takes all its steps and at
/// the last the continuity rule at the vertex after `b` moves `b`. The walk
/// to the right, which runs after it, does if it takes all its steps and at
/// the last the edge that arrives at the start of the edge drags that start
/// off the line or the continuity rule there moves `b`, or if it takes all
/// its steps but one or all and the continuity rule at the vertex before
/// the start moves the start.
pub open spec fn stays_clear_of_edge_from_end(s: Seq<Point>, b: int, axis: EdgeConstraint) -> bool {
    let n = s.len() as int;
    let a = previous_of(n, b);
    let z = previous_of(n, a);
    &&& left_length(s, b) == n - 1 ==> !pushes_previous(s, next_of(n, b))
    &&& right_length(s, b) == n - 1 ==> spares(s[z].constraint, axis) && !answers(s, a)
    &&& right_length(s, b) >= n - 2 ==> !pushes_next(s, z)
}

/// The length of the walk to the left depends on the shape alone.
pub proof fn lemma_left_length_follows_shape(a: Seq<Point>, b: Seq<Point>, origin: int, j: int)
    requires
        same_shape(a, b),
        0 <= origin < a.len(),
        0 <= j,
    ensures
        left_length_from(a, origin, j) == left_length_from(b, origin, j),
    decreases a.len() - j,
{
    lemma_left_goes_on_follows_shape(a, b, origin, j);
    if left_goes_on(a, origin, j) {
        lemma_left_length_follows_shape(a, b, origin, j + 1);
    }
}

/// The length of the walk to the right depends on the shape alone.
pub proof fn lemma_right_length_follows_shape(a: Seq<Point>, b: Seq<Point>, origin: int, j: int)
    requires
        same_shape(a, b),
        0 <= origin < a.len(),
        0 <= j,
    ensures
        right_length_from(a, origin, j) == right_length_from(b, origin, j),
    decreases a.len() - j,
{
    lemma_right_goes_on_follows_shape(a, b, origin, j);
    if right_goes_on(a, origin, j) {
        lemma_right_length_follows_shape(a, b, origin, j + 1);
    }
}

/// The walk to the right from the start of an edge that compares a
/// coordinate satisfies the edge at its first step and keeps it satisfied,
/// unless it comes round and a continuity rule moves the start.
pub proof fn lemma_right_walk_levels(
    start: Seq<Point>,
    current: Seq<Point>,
    a: int,
    j: int,
    axis: EdgeConstraint,
)
    requires
        3 <= start.len() <= usize::MAX,
        0 <= a < start.len(),
        is_well_formed(start),
        is_axis(axis),
        start[a].constraint == Some(axis),
        1 <= j < start.len(),
        right_walk(start, current, a, j),
        j == start.len() - 1 ==> !(answers(start, previous_of(start.len() as int, a))
            && start[previous_of(start.len() as int, a)].bezier_data is None),
    ensures
        same_shape(start, current),
        satisfies(axis, current[a].pos, current[next_of(start.len() as int, a)].pos),
        current[a].pos == start[a].pos,
        current[next_of(start.len() as int, a)].pos == copied(
            Some(axis),
            start[next_of(start.len() as int, a)].pos,
            start[a].pos,
        ),
    decreases j,
{
    let n = start.len() as int;
    let b = next_of(n, a);
    let cursor = steps_forth(n, a, j - 1);
    let mid = choose|mid: Seq<Point>|
        right_walk(start, mid, a, j - 1) && #[trigger] right_step(mid, current, cursor);
    if j == 1 {
        lemma_right_step(start, current, a);
    } else {
        lemma_right_walk_levels(start, mid, a, j - 1, axis);
        lemma_shape(start, mid);
        lemma_right_step(mid, current, cursor);
        lemma_shape_chain(start, mid, current);
        let end = next_of(n, cursor);
        let beyond = next_of(n, end);
        assert(end != a && end != b);
        assert(beyond != b);
        if beyond == a {
            assert(j == n - 1);
            assert(end == previous_of(n, a));
            assert(mid[end].bezier_data is None == start[end].bezier_data is None) by {
                assert(start[end].constraint == mid[end].constraint);
            }
        }
        assert(current[a].pos == mid[a].pos);
        assert(current[b].pos == mid[b].pos);
    }
}

/// How far the walk to the left reaches: after `j` steps, the vertices
/// more than `j + 1` steps before the origin are where they were, and so is
/// the origin, unless the walk has come round and the continuity rule at
/// the vertex after it moves it.
pub proof fn lemma_left_walk_reach(start: Seq<Point>, current: Seq<Point>, origin: int, j: int)
    requires
        3 <= start.len() <= usize::MAX,
        0 <= origin < start.len(),
        0 <= j < start.len(),
        left_walk(start, current, origin, j),
    ensures
        same_shape(start, current),
        forall|v: int|
            0 <= v < start.len() && behind(start.len() as int, origin, v) > j + 1 ==> (
            #[trigger] current[v]).pos == start[v].pos,
        j < start.len() - 1 || !pushes_previous(start, next_of(start.len() as int, origin))
            ==> current[origin].pos == start[origin].pos,
    decreases j,
{
    let n = start.len() as int;
    if j > 0 {
        let cursor = steps_back(n, origin, j - 1);
        let mid = choose|mid: Seq<Point>|
            left_walk(start, mid, origin, j - 1) && #[trigger] left_step(mid, current, cursor);
        lemma_left_walk_reach(start, mid, origin, j - 1);
        lemma_shape(start, mid);
        lemma_left_step(mid, current, cursor);
        lemma_shape_chain(start, mid, current);
        let edge_start = previous_of(n, cursor);
        let beyond = previous_of(n, edge_start);
        assert(behind(n, origin, edge_start) == j);
        assert(edge_start != origin);
        assert forall|v: int| 0 <= v < n && behind(n, origin, v) > j + 1 implies (
        #[trigger] current[v]).pos == start[v].pos by {
            assert(v != edge_start && v != beyond);
            assert(mid[v].pos == start[v].pos);
        }
        if beyond == origin {
            assert(j == n - 1);
            assert(edge_start == next_of(n, origin));
            assert(mid[origin].bezier_data is None == start[origin].bezier_data is None) by {
                assert(start[origin].constraint == mid[origin].constraint);
            }
        }
    }
}

/// After the start of a horizontal edge has been moved, both endpoints of
/// the edge have the same ordinate; after the start of a vertical edge has
/// been moved, the same abscissa. This holds on a well-formed contour of
/// three vertices or more, as long as the walk to the right does not come
/// round the contour and move the start from the far side. The moved vertex
/// is where it was put, unless the walk to the left has come round to it;
/// and the end of the edge is where the copied coordinate says, unless a
/// continuity rule at the moved vertex or the walk to the left has moved it
/// before.
pub proof fn law_edge_follows_its_start(
    pre: Seq<Point>,
    post: Seq<Point>,
    a: int,
    new_position: Pos2,
    axis: EdgeConstraint,
)
    requires
        3 <= pre.len() <= usize::MAX,
        0 <= a < pre.len(),
        is_well_formed(pre),
        is_axis(axis),
        pre[a].constraint == Some(axis),
        vertex_moved(pre, post, a, new_position),
        stays_clear_of_edge_from_start(pre, a),
    ensures
        satisfies(axis, post[a].pos, post[next_of(pre.len() as int, a)].pos),
        left_length(pre, a) < pre.len() - 1 || !answers(pre, next_of(pre.len() as int, a))
            ==> post[a].pos == new_position,
        !answers(pre, a) && left_length(pre, a) + 2 < pre.len() ==> post[next_of(
            pre.len() as int,
            a,
        )].pos == copied(Some(axis), pre[next_of(pre.len() as int, a)].pos, new_position),
{
    let n = pre.len() as int;
    let b = next_of(n, a);
    let z = previous_of(n, a);
    let placed = with_position(pre, Slot::Vertex(a as usize), new_position);
    assert(same_shape(pre, placed));
    assert(is_well_formed_at(pre, a));
    let (reshaped_to, restored) = choose|reshaped_to: Seq<Point>, restored: Seq<Point>|
        {
            &&& #[trigger] freely_adjusted(placed, reshaped_to, a, pre[a].pos)
            &&& continuity_restored(reshaped_to, restored, a)
            &&& #[trigger] propagated(restored, post, a, true)
        };
    lemma_freely_adjusted(placed, reshaped_to, a, pre[a].pos);
    lemma_shape_chain(pre, placed, reshaped_to);
    lemma_shape(pre, reshaped_to);
    let half = choose|mid: Seq<Point>|
        continuity_adjusted(reshaped_to, mid, a, UpdateDirection::Left) && continuity_adjusted(
            mid,
            restored,
            a,
            UpdateDirection::Right,
        );
    lemma_continuity_left(reshaped_to, half, a);
    lemma_shape_chain(pre, reshaped_to, half);
    lemma_shape(pre, half);
    lemma_continuity_right(half, restored, a);
    lemma_shape_chain(pre, half, restored);
    lemma_shape(pre, restored);
    assert(restored[a].pos == new_position);
    assert(!answers(pre, a) ==> restored[b].pos == pre[b].pos);
    let between = choose|mid: Seq<Point>|
        walked_left(restored, mid, a) && walked_right(mid, post, a);
    // The walk to the left.
    let left_from = choose|mid: Seq<Point>|
        continuity_adjusted(restored, mid, a, UpdateDirection::Left) && left_walk(
            mid,
            between,
            a,
            left_length(restored, a),
        );
    lemma_continuity_left(restored, left_from, a);
    lemma_shape_chain(pre, restored, left_from);
    lemma_shape(pre, left_from);
    lemma_left_length_follows_shape(pre, restored, a, 0);
    lemma_left_length_bound(pre, a, 0);
    assert(left_from[a].bezier_data is None == pre[a].bezier_data is None) by {
        assert(left_from[a].constraint == pre[a].constraint);
    }
    lemma_left_walk_reach(left_from, between, a, left_length(pre, a));
    assert(behind(n, a, b) == n - 1);
    lemma_shape_chain(pre, left_from, between);
    lemma_shape(pre, between);
    // The walk to the right.
    let right_from = choose|mid: Seq<Point>|
        continuity_adjusted(between, mid, a, UpdateDirection::Right) && right_walk(
            mid,
            post,
            a,
            right_length(between, a),
        );
    lemma_continuity_right(between, right_from, a);
    lemma_shape_chain(pre, between, right_from);
    lemma_shape(pre, right_from);
    lemma_right_length_follows_shape(pre, between, a, 0);
    lemma_right_length_bound(pre, a, 0);
    assert(right_goes_on(pre, a, 0));
    lemma_right_length_bound(pre, a, 1);
    assert(right_from[a].constraint == pre[a].constraint);
    assert(right_from[z].bezier_data is None == pre[z].bezier_data is None) by {
        assert(right_from[z].constraint == pre[z].constraint);
    }
    lemma_right_walk_levels(right_from, post, a, right_length(pre, a), axis);
}

/// The walk to the left from the end of an edge that compares a coordinate
/// satisfies the edge at its first step and keeps it satisfied, unless it
/// comes round and a continuity rule moves the end.
pub proof fn lemma_left_walk_levels(
    start: Seq<Point>,
    current: Seq<Point>,
    b: int,
    j: int,
    axis: EdgeConstraint,
)
    requires
        3 <= start.len() <= usize::MAX,
        0 <= b < start.len(),
        is_axis(axis),
        start[previous_of(start.len() as int, b)].constraint == Some(axis),
        1 <= j < start.len(),
        left_walk(start, current, b, j),
        j == start.len() - 1 ==> !(answers(start, next_of(start.len() as int, b))
            && start[b].bezier_data is None),
    ensures
        same_shape(start, current),
        satisfies(axis, current[previous_of(start.len() as int, b)].pos, current[b].pos),
        current[b].pos == start[b].pos,
        current[previous_of(start.len() as int, b)].pos == copied(
            Some(axis),
            start[previous_of(start.len() as int, b)].pos,
            start[b].pos,
        ),
    decreases j,
{
    let n = start.len() as int;
    let a = previous_of(n, b);
    let cursor = steps_back(n, b, j - 1);
    let mid = choose|mid: Seq<Point>|
        left_walk(start, mid, b, j - 1) && #[trigger] left_step(mid, current, cursor);
    if j == 1 {
        lemma_left_step(start, current, b);
    } else {
        lemma_left_walk_levels(start, mid, b, j - 1, axis);
        lemma_shape(start, mid);
        lemma_left_step(mid, current, cursor);
        lemma_shape_chain(start, mid, current);
        let edge_start = previous_of(n, cursor);
        let beyond = previous_of(n, edge_start);
        assert(edge_start != a && edge_start != b);
        assert(beyond != a);
        if beyond == b {
            assert(j == n - 1);
            assert(edge_start == next_of(n, b));
            assert(mid[b].bezier_data is None == start[b].bezier_data is None) by {
                assert(start[b].constraint == mid[b].constraint);
            }
        }
        assert(current[a].pos == mid[a].pos);
        assert(current[b].pos == mid[b].pos);
    }
}

/// The walk to the right from the end of an edge that compares a
/// coordinate keeps the edge satisfied, unless it comes round to the start
/// of the edge.
pub proof fn lemma_right_walk_keeps_level(
    start: Seq<Point>,
    current: Seq<Point>,
    b: int,
    j: int,
    axis: EdgeConstraint,
)
    requires
        3 <= start.len() <= usize::MAX,
        0 <= b < start.len(),
        is_well_formed(start),
        is_axis(axis),
        satisfies(axis, start[previous_of(start.len() as int, b)].pos, start[b].pos),
        0 <= j < start.len(),
        right_walk(start, current, b, j),
        ({
            let n = start.len() as int;
            let a = previous_of(n, b);
            let z = previous_of(n, a);
            &&& j == n - 1 ==> spares(start[z].constraint, axis) && !answers(start, a)
            &&& j >= n - 2 ==> !(answers(start, z) && start[z].bezier_data is None)
        }),
    ensures
        same_shape(start, current),
        satisfies(axis, current[previous_of(start.len() as int, b)].pos, current[b].pos),
        current[b].pos == start[b].pos,
        j + 2 < start.len() ==> current[previous_of(start.len() as int, b)].pos == start[previous_of(
            start.len() as int,
            b,
        )].pos,
    decreases j,
{
    let n = start.len() as int;
    let a = previous_of(n, b);
    let z = previous_of(n, a);
    if j > 0 {
        let cursor = steps_forth(n, b, j - 1);
        let mid = choose|mid: Seq<Point>|
            right_walk(start, mid, b, j - 1) && #[trigger] right_step(mid, current, cursor);
        lemma_right_walk_keeps_level(start, mid, b, j - 1, axis);
        lemma_shape(start, mid);
        lemma_right_step(mid, current, cursor);
        lemma_shape_chain(start, mid, current);
        let end = next_of(n, cursor);
        let beyond = next_of(n, end);
        assert(end != b);
        assert(mid[z].constraint == start[z].constraint);
        assert(mid[z].bezier_data is None == start[z].bezier_data is None);
        if end == a {
            assert(j == n - 1);
            assert(cursor == z);
            assert(beyond == b);
        } else if beyond == a {
            assert(j == n - 2);
            assert(end == z);
        } else {
            assert(beyond != b);
        }
    }
}

/// After the end of a horizontal edge has been moved, both endpoints of the
/// edge have the same ordinate; after the end of a vertical edge has been
/// moved, the same abscissa. This holds on a well-formed contour of three
/// vertices or more, as long as no walk comes round the contour and moves
/// an endpoint of the edge from the far side. The moved vertex is then
/// where it was put; and the start of the edge is where the copied
/// coordinate says, unless a continuity rule at the moved vertex has moved
/// it before or the walk to the right has come near it.
pub proof fn law_edge_follows_its_end(
    pre: Seq<Point>,
    post: Seq<Point>,
    b: int,
    new_position: Pos2,
    axis: EdgeConstraint,
)
    requires
        3 <= pre.len() <= usize::MAX,
        0 <= b < pre.len(),
        is_well_formed(pre),
        is_axis(axis),
        pre[previous_of(pre.len() as int, b)].constraint == Some(axis),
        vertex_moved(pre, post, b, new_position),
        stays_clear_of_edge_from_end(pre, b, axis),
    ensures
        satisfies(axis, post[previous_of(pre.len() as int, b)].pos, post[b].pos),
        post[b].pos == new_position,
        !answers(pre, b) && right_length(pre, b) + 2 < pre.len() ==> post[previous_of(
            pre.len() as int,
            b,
        )].pos == copied(Some(axis), pre[previous_of(pre.len() as int, b)].pos, new_position),
{
    let n = pre.len() as int;
    let a = previous_of(n, b);
    let z = previous_of(n, a);
    let placed = with_position(pre, Slot::Vertex(b as usize), new_position);
    assert(same_shape(pre, placed));
    let (reshaped_to, restored) = choose|reshaped_to: Seq<Point>, restored: Seq<Point>|
        {
            &&& #[trigger] freely_adjusted(placed, reshaped_to, b, pre[b].pos)
            &&& continuity_restored(reshaped_to, restored, b)
            &&& #[trigger] propagated(restored, post, b, true)
        };
    lemma_freely_adjusted(placed, reshaped_to, b, pre[b].pos);
    lemma_shape_chain(pre, placed, reshaped_to);
    lemma_shape(pre, reshaped_to);
    let half = choose|mid: Seq<Point>|
        continuity_adjusted(reshaped_to, mid, b, UpdateDirection::Left) && continuity_adjusted(
            mid,
            restored,
            b,
            UpdateDirection::Right,
        );
    lemma_continuity_left(reshaped_to, half, b);
    lemma_shape_chain(pre, reshaped_to, half);
    lemma_shape(pre, half);
    lemma_continuity_right(half, restored, b);
    lemma_shape_chain(pre, half, restored);
    lemma_shape(pre, restored);
    let between = choose|mid: Seq<Point>|
        walked_left(restored, mid, b) && walked_right(mid, post, b);
    lemma_left_length_bound(pre, b, 0);
    lemma_right_length_bound(pre, b, 0);
    assert(left_goes_on(pre, b, 0));
    lemma_left_length_bound(pre, b, 1);
    // The walk to the left.
    let left_from = choose|mid: Seq<Point>|
        continuity_adjusted(restored, mid, b, UpdateDirection::Left) && left_walk(
            mid,
            between,
            b,
            left_length(restored, b),
        );
    lemma_continuity_left(restored, left_from, b);
    lemma_shape_chain(pre, restored, left_from);
    lemma_shape(pre, left_from);
    lemma_left_length_follows_shape(pre, restored, b, 0);
    assert(left_from[a].constraint == pre[a].constraint);
    assert(left_from[b].bezier_data is None == pre[b].bezier_data is None) by {
        assert(left_from[b].constraint == pre[b].constraint);
    }
    lemma_left_walk_levels(left_from, between, b, left_length(pre, b), axis);
    lemma_shape_chain(pre, left_from, between);
    lemma_shape(pre, between);
    // The walk to the right.
    let right_from = choose|mid: Seq<Point>|
        continuity_adjusted(between, mid, b, UpdateDirection::Right) && right_walk(
            mid,
            post,
            b,
            right_length(between, b),
        );
    lemma_continuity_right(between, right_from, b);
    lemma_shape_chain(pre, between, right_from);
    lemma_shape(pre, right_from);
    lemma_right_length_follows_shape(pre, between, b, 0);
    assert(right_from[a].pos == between[a].pos);
    assert(right_from[b].pos == between[b].pos);
    assert(right_from[z].constraint == pre[z].constraint);
    assert(right_from[z].bezier_data is None == pre[z].bezier_data is None);
    lemma_right_walk_keeps_level(right_from, post, b, right_length(pre, b), axis);
}

/// Whether the step of the walk to the left that handles the edge starting
/// at `i` finds nothing to do wherever the vertices are: the edge has no
/// constraint, and no continuity rule acts at its start.
pub open spec fn is_idle_towards_start(s: Seq<Point>, i: int) -> bool {
    s[i].constraint is None && !answers(s, i)
}

/// Whether the step of the walk to the right that handles the edge starting
/// at `i` finds nothing to do wherever the vertices are: the edge has no
/// constraint, and no continuity rule acts at its end.
pub open spec fn is_idle_towards_end(s: Seq<Point>, i: int) -> bool {
    s[i].constraint is None && !answers(s, next_of(s.len() as int, i))
}

/// A walk to the left of which only the first step finds anything to do is
/// that step.
pub proof fn lemma_left_walk_is_first_step(start: Seq<Point>, current: Seq<Point>, origin: int, j: int)
    requires
        3 <= start.len() <= usize::MAX,
        0 <= origin < start.len(),
        1 <= j < start.len(),
        left_walk(start, current, origin, j),
        forall|i: int|
            0 <= i < start.len() && 2 <= behind(start.len() as int, origin, i) <= j
                ==> #[trigger] is_idle_towards_start(start, i),
    ensures
        left_step(start, current, origin),
    decreases j,
{
    let n = start.len() as int;
    let cursor = steps_back(n, origin, j - 1);
    let mid = choose|mid: Seq<Point>|
        left_walk(start, mid, origin, j - 1) && #[trigger] left_step(mid, current, cursor);
    if j > 1 {
        lemma_left_walk_is_first_step(start, mid, origin, j - 1);
        lemma_left_step(start, mid, origin);
        lemma_shape(start, mid);
        let edge_start = previous_of(n, cursor);
        assert(behind(n, origin, edge_start) == j);
        assert(is_idle_towards_start(start, edge_start));
        assert(mid[edge_start].constraint == start[edge_start].constraint);
        assert(rests_towards_start(mid, edge_start));
        lemma_rest_left_step(mid, current, cursor);
    }
}

/// A walk to the right of which only the first step finds anything to do is
/// that step.
pub proof fn lemma_right_walk_is_first_step(start: Seq<Point>, current: Seq<Point>, origin: int, j: int)
    requires
        3 <= start.len() <= usize::MAX,
        0 <= origin < start.len(),
        is_well_formed(start),
        1 <= j < start.len(),
        right_walk(start, current, origin, j),
        forall|i: int|
            0 <= i < start.len() && 1 <= ahead(start.len() as int, origin, i) < j
                ==> #[trigger] is_idle_towards_end(start, i),
    ensures
        right_step(start, current, origin),
    decreases j,
{
    let n = start.len() as int;
    let cursor = steps_forth(n, origin, j - 1);
    let mid = choose|mid: Seq<Point>|
        right_walk(start, mid, origin, j - 1) && #[trigger] right_step(mid, current, cursor);
    if j > 1 {
        lemma_right_walk_is_first_step(start, mid, origin, j - 1);
        lemma_right_step(start, mid, origin);
        lemma_shape(start, mid);
        assert(ahead(n, origin, cursor) == j - 1);
        assert(is_idle_towards_end(start, cursor));
        assert(mid[cursor].constraint == start[cursor].constraint);
        assert(rests_towards_end(mid, cursor));
        lemma_rest_right_step(mid, current, cursor);
    }
}

/// Whether the edge that starts at vertex `i` is straight.
pub open spec fn is_straight_at(s: Seq<Point>, i: int) -> bool {
    s[i].bezier_data is None
}

/// Whether every edge of the contour is straight.
pub open spec fn has_no_curves(s: Seq<Point>) -> bool {
    forall|i: int| 0 <= i < s.len() ==> #[trigger] is_straight_at(s, i)
}

/// Whether no edge but the one that starts at `e` has a constraint.
pub open spec fn is_only_constrained_edge(s: Seq<Point>, e: int) -> bool {
    forall|i: int| 0 <= i < s.len() && i != e ==> #[trigger] is_free_at(s, i)
}

/// On a contour without curves no vertex is an endpoint of one, and the
/// contour is well formed.
pub proof fn lemma_no_curves(s: Seq<Point>)
    requires
        has_no_curves(s),
        s.len() >= 1,
    ensures
        forall|v: int| 0 <= v < s.len() ==> !#[trigger] touches_curve(s, v),
        forall|v: int| 0 <= v < s.len() ==> !#[trigger] answers(s, v),
        is_well_formed(s),
{
    assert forall|v: int| 0 <= v < s.len() implies !#[trigger] touches_curve(s, v) by {
        assert(is_straight_at(s, v));
        assert(is_straight_at(s, previous_of(s.len() as int, v)));
    }
    assert forall|v: int| 0 <= v < s.len() implies #[trigger] is_well_formed_at(s, v) by {
        assert(is_straight_at(s, v));
    }
}

/// Having no curves depends on the shape alone.
pub proof fn lemma_shape_without_curves(a: Seq<Point>, b: Seq<Point>)
    requires
        same_shape(a, b),
        has_no_curves(a),
    ensures
        has_no_curves(b),
{
    assert forall|i: int| 0 <= i < b.len() implies #[trigger] is_straight_at(b, i) by {
        assert(is_straight_at(a, i));
        assert(a[i].constraint == b[i].constraint);
    }
}

/// Which edges have a constraint depends on the shape alone.
pub proof fn lemma_shape_of_constraints(a: Seq<Point>, b: Seq<Point>, e: int)
    requires
        same_shape(a, b),
        is_only_constrained_edge(a, e),
    ensures
        is_only_constrained_edge(b, e),
{
    assert forall|i: int| 0 <= i < b.len() && i != e implies #[trigger] is_free_at(b, i) by {
        assert(is_free_at(a, i));
        assert(a[i].constraint == b[i].constraint);
    }
}

/// A free adjustment at a vertex that is no endpoint of a curve segment
/// changes nothing.
pub proof fn lemma_straight_free_adjustment(pre: Seq<Point>, post: Seq<Point>, v: int, was: Pos2)
    requires
        0 <= v < pre.len(),
        !touches_curve(pre, v),
        freely_adjusted(pre, post, v, was),
    ensures
        post == pre,
{
    if pre[v].continuity_type == ContinuityType::G0 {
        let n = pre.len() as int;
        let before = previous_of(n, v);
        let mid = choose|mid: Seq<Point>|
            {
                &&& reshaped(pre, mid, before, was, pre[v].pos, pre[before].pos)
                &&& reshaped(mid, post, v, was, pre[v].pos, pre[next_of(n, v)].pos)
            };
        assert(mid == pre);
    }
}

/// What an edge of constant width does to the endpoint `moved` on a contour
/// without curves: the endpoint goes to the position at that width from
/// `fixed`, in the direction in which it lies, or stays where the two are
/// at the same place; nothing else changes.
pub proof fn lemma_width_drag(
    pre: Seq<Point>,
    post: Seq<Point>,
    moved: int,
    fixed: int,
    width: i32,
)
    requires
        1 <= pre.len() <= usize::MAX,
        0 <= moved < pre.len(),
        0 <= fixed < pre.len(),
        has_no_curves(pre),
        dragged(pre, post, moved, fixed, Some(EdgeConstraint::ConstWidth(width))),
    ensures
        post == with_position(pre, Slot::Vertex(moved as usize), post[moved].pos),
        if coincide(pre[moved].pos, pre[fixed].pos) {
            post == pre
        } else {
            is_at_width(width, false, pre[fixed].pos, pre[moved].pos, post[moved].pos)
        },
{
    let mid = choose|mid: Seq<Point>|
        constrained(pre, mid, moved, fixed, EdgeConstraint::ConstWidth(width)) && freely_adjusted(
            mid,
            post,
            moved,
            pre[moved].pos,
        );
    assert(same_shape(pre, mid));
    lemma_shape_without_curves(pre, mid);
    lemma_no_curves(mid);
    lemma_straight_free_adjustment(mid, post, moved, pre[moved].pos);
    if coincide(pre[moved].pos, pre[fixed].pos) {
        assert(post =~= with_position(pre, Slot::Vertex(moved as usize), post[moved].pos));
    }
}

/// After the start of an edge of constant width has been moved, the end of
/// the edge is at that width from the start, in the direction in which it
/// lay from there; it stays where the start has been put on it. This holds
/// on a contour of three vertices or more without curves, on which no other
/// edge has a constraint. The moved vertex is where it was put, and nothing
/// else has changed.
pub proof fn law_width_edge_follows_its_start(
    pre: Seq<Point>,
    post: Seq<Point>,
    a: int,
    new_position: Pos2,
    width: i32,
)
    requires
        3 <= pre.len() <= usize::MAX,
        0 <= a < pre.len(),
        pre[a].constraint == Some(EdgeConstraint::ConstWidth(width)),
        is_only_constrained_edge(pre, a),
        has_no_curves(pre),
        vertex_moved(pre, post, a, new_position),
    ensures
        ({
            let b = next_of(pre.len() as int, a);
            let placed = with_position(pre, Slot::Vertex(a as usize), new_position);
            &&& post == with_position(placed, Slot::Vertex(b as usize), post[b].pos)
            &&& if coincide(pre[b].pos, new_position) {
                post[b].pos == pre[b].pos
            } else {
                is_at_width(width, false, new_position, pre[b].pos, post[b].pos)
            }
        }),
{
    let n = pre.len() as int;
    let b = next_of(n, a);
    let placed = with_position(pre, Slot::Vertex(a as usize), new_position);
    assert(same_shape(pre, placed));
    lemma_shape_without_curves(pre, placed);
    lemma_shape_of_constraints(pre, placed, a);
    lemma_no_curves(placed);
    let (reshaped_to, restored) = choose|reshaped_to: Seq<Point>, restored: Seq<Point>|
        {
            &&& #[trigger] freely_adjusted(placed, reshaped_to, a, pre[a].pos)
            &&& continuity_restored(reshaped_to, restored, a)
            &&& #[trigger] propagated(restored, post, a, true)
        };
    lemma_straight_free_adjustment(placed, reshaped_to, a, pre[a].pos);
    let half = choose|mid: Seq<Point>|
        continuity_adjusted(placed, mid, a, UpdateDirection::Left) && continuity_adjusted(
            mid,
            restored,
            a,
            UpdateDirection::Right,
        );
    assert(restored == placed);
    let between = choose|mid: Seq<Point>|
        walked_left(placed, mid, a) && walked_right(mid, post, a);
    // The walk to the left takes no step.
    let left_from = choose|mid: Seq<Point>|
        continuity_adjusted(placed, mid, a, UpdateDirection::Left) && left_walk(
            mid,
            between,
            a,
            left_length(placed, a),
        );
    assert(is_free_at(placed, previous_of(n, a)));
    assert(!left_goes_on(placed, a, 0));
    assert(between == placed);
    // The walk to the right is its first step.
    let right_from = choose|mid: Seq<Point>|
        continuity_adjusted(placed, mid, a, UpdateDirection::Right) && right_walk(
            mid,
            post,
            a,
            right_length(placed, a),
        );
    assert(placed[a].constraint == pre[a].constraint);
    assert(right_goes_on(placed, a, 0));
    lemma_right_length_bound(placed, a, 1);
    assert forall|i: int|
        0 <= i < n && 1 <= ahead(n, a, i) < right_length(placed, a)
        implies #[trigger] is_idle_towards_end(placed, i) by {
        assert(is_free_at(placed, i));
    }
    lemma_right_walk_is_first_step(placed, post, a, right_length(placed, a));
    let dragged_to = choose|mid: Seq<Point>|
        dragged(placed, mid, b, a, placed[a].constraint) && continuity_adjusted(
            mid,
            post,
            b,
            UpdateDirection::Right,
        );
    lemma_width_drag(placed, dragged_to, b, a, width);
    lemma_dragged(placed, dragged_to, b, a, placed[a].constraint);
    lemma_shape_without_curves(placed, dragged_to);
    lemma_no_curves(dragged_to);
    assert(post == dragged_to);
}

/// After the end of an edge of constant width has been moved, the start of
/// the edge is at that width from the end, in the direction in which it lay
/// from there; it stays where the end has been put on it. This holds on a
/// contour of three vertices or more without curves, on which no other edge
/// has a constraint. The moved vertex is where it was put, and nothing else
/// has changed.
pub proof fn law_width_edge_follows_its_end(
    pre: Seq<Point>,
    post: Seq<Point>,
    b: int,
    new_position: Pos2,
    width: i32,
)
    requires
        3 <= pre.len() <= usize::MAX,
        0 <= b < pre.len(),
        pre[previous_of(pre.len() as int, b)].constraint == Some(EdgeConstraint::ConstWidth(width)),
        is_only_constrained_edge(pre, previous_of(pre.len() as int, b)),
        has_no_curves(pre),
        vertex_moved(pre, post, b, new_position),
    ensures
        ({
            let a = previous_of(pre.len() as int, b);
            let placed = with_position(pre, Slot::Vertex(b as usize), new_position);
            &&& post == with_position(placed, Slot::Vertex(a as usize), post[a].pos)
            &&& if coincide(pre[a].pos, new_position) {
                post[a].pos == pre[a].pos
            } else {
                is_at_width(width, false, new_position, pre[a].pos, post[a].pos)
            }
        }),
{
    let n = pre.len() as int;
    let a = previous_of(n, b);
    let placed = with_position(pre, Slot::Vertex(b as usize), new_position);
    assert(same_shape(pre, placed));
    lemma_shape_without_curves(pre, placed);
    lemma_shape_of_constraints(pre, placed, a);
    lemma_no_curves(placed);
    let (reshaped_to, restored) = choose|reshaped_to: Seq<Point>, restored: Seq<Point>|
        {
            &&& #[trigger] freely_adjusted(placed, reshaped_to, b, pre[b].pos)
            &&& continuity_restored(reshaped_to, restored, b)
            &&& #[trigger] propagated(restored, post, b, true)
        };
    lemma_straight_free_adjustment(placed, reshaped_to, b, pre[b].pos);
    let half = choose|mid: Seq<Point>|
        continuity_adjusted(placed, mid, b, UpdateDirection::Left) && continuity_adjusted(
            mid,
            restored,
            b,
            UpdateDirection::Right,
        );
    assert(restored == placed);
    let between = choose|mid: Seq<Point>|
        walked_left(placed, mid, b) && walked_right(mid, post, b);
    // The walk to the left is its first step.
    let left_from = choose|mid: Seq<Point>|
        continuity_adjusted(placed, mid, b, UpdateDirection::Left) && left_walk(
            mid,
            between,
            b,
            left_length(placed, b),
        );
    assert(placed[a].constraint == pre[a].constraint);
    assert(left_goes_on(placed, b, 0));
    lemma_left_length_bound(placed, b, 1);
    assert forall|i: int|
        0 <= i < n && 2 <= behind(n, b, i) <= left_length(placed, b)
        implies #[trigger] is_idle_towards_start(placed, i) by {
        assert(is_free_at(placed, i));
    }
    lemma_left_walk_is_first_step(placed, between, b, left_length(placed, b));
    let dragged_to = choose|mid: Seq<Point>|
        dragged(placed, mid, a, b, placed[a].constraint) && continuity_adjusted(
            mid,
            between,
            a,
            UpdateDirection::Left,
        );
    lemma_width_drag(placed, dragged_to, a, b, width);
    lemma_dragged(placed, dragged_to, a, b, placed[a].constraint);
    lemma_shape_without_curves(placed, dragged_to);
    lemma_no_curves(dragged_to);
    assert(between == dragged_to);
    // The walk to the right takes no step.
    lemma_shape_of_constraints(placed, between, a);
    let right_from = choose|mid: Seq<Point>|
        continuity_adjusted(between, mid, b, UpdateDirection::Right) && right_walk(
            mid,
            post,
            b,
            right_length(between, b),
        );
    assert(is_free_at(between, b));
    assert(!right_goes_on(between, b, 0));
    assert(post == between);
}

/// Whether the edge that starts at `c` is a curve segment and the only one
/// of the contour.
pub open spec fn is_only_curve(s: Seq<Point>, c: int) -> bool {
    &&& s[c].bezier_data is Some
    &&& forall|i: int| 0 <= i < s.len() && i != c ==> #[trigger] is_straight_at(s, i)
}

/// Where a contour has one curve segment only, its endpoints are the only
/// vertices that are endpoints of a curve segment.
pub proof fn lemma_only_curve(s: Seq<Point>, c: int)
    requires
        3 <= s.len(),
        0 <= c < s.len(),
        is_only_curve(s, c),
    ensures
        forall|v: int|
            0 <= v < s.len() ==> (#[trigger] touches_curve(s, v) <==> v == c || v == next_of(
                s.len() as int,
                c,
            )),
{
    let n = s.len() as int;
    assert forall|v: int| 0 <= v < n implies (#[trigger] touches_curve(s, v) <==> v == c || v
        == next_of(n, c)) by {
        let before = previous_of(n, v);
        if v != c {
            assert(is_straight_at(s, v));
        }
        if before != c {
            assert(is_straight_at(s, before));
        }
    }
}

/// Being the only curve segment depends on the shape alone.
pub proof fn lemma_shape_of_only_curve(a: Seq<Point>, b: Seq<Point>, c: int)
    requires
        same_shape(a, b),
        0 <= c < a.len(),
        is_only_curve(a, c),
    ensures
        is_only_curve(b, c),
{
    assert(a[c].constraint == b[c].constraint);
    assert forall|i: int| 0 <= i < b.len() && i != c implies #[trigger] is_straight_at(b, i) by {
        assert(is_straight_at(a, i));
        assert(a[i].constraint == b[i].constraint);
    }
}

/// Having no constraint depends on the shape alone.
pub proof fn lemma_shape_of_free(a: Seq<Point>, b: Seq<Point>)
    requires
        same_shape(a, b),
        is_free(a),
    ensures
        is_free(b),
{
    assert forall|i: int| 0 <= i < b.len() implies #[trigger] is_free_at(b, i) by {
        assert(is_free_at(a, i));
        assert(a[i].constraint == b[i].constraint);
    }
}

/// Putting a handle where it is changes nothing.
pub proof fn lemma_handle_in_place(s: Seq<Point>, c: int, k: usize)
    requires
        0 <= c < s.len() <= usize::MAX,
        s[c].bezier_data is Some,
        k < 2,
    ensures
        with_position(
            s,
            Slot::Handle(c as usize, k),
            position_at(s, Slot::Handle(c as usize, k)),
        ) == s,
{
    let handles = s[c].bezier_data->0;
    let same = with_handle(handles, k, handles.inner_points[k as int]);
    assert(same.inner_points =~= handles.inner_points);
    assert(with_position(
        s,
        Slot::Handle(c as usize, k),
        position_at(s, Slot::Handle(c as usize, k)),
    ) =~= s);
}

/// After the vertex before the start of a curve segment has been moved, the
/// first handle of the curve continues the straight edge across the start,
/// as the continuity there asks: under `G1` opposite the moved vertex, as
/// far from the start as it was; under `C1` opposite it, a third as far
/// from the start as the moved vertex is. It stays where the vertex has
/// been put on the start. This holds on a contour of four
/// vertices or more without constraints, on which that curve segment is the
/// only one and no continuity rule acts at its end. The moved vertex is
/// where it was put, and nothing else has changed.
pub proof fn law_handle_follows_the_edge_before(
    pre: Seq<Point>,
    post: Seq<Point>,
    corner: int,
    new_position: Pos2,
)
    requires
        4 <= pre.len() <= usize::MAX,
        0 <= corner < pre.len(),
        is_free(pre),
        is_only_curve(pre, corner),
        answers(pre, corner),
        !answers(pre, next_of(pre.len() as int, corner)),
        vertex_moved(pre, post, previous_of(pre.len() as int, corner), new_position),
    ensures
        ({
            let moved = previous_of(pre.len() as int, corner);
            let placed = with_position(pre, Slot::Vertex(moved as usize), new_position);
            let handle = Slot::Handle(corner as usize, 0);
            &&& post == with_position(placed, handle, position_at(post, handle))
            &&& if coincide(new_position, pre[corner].pos) {
                post == placed
            } else {
                continues(
                    pre[corner].continuity_type,
                    LengthRatio::Third,
                    pre[corner].pos,
                    new_position,
                    position_at(pre, handle),
                    position_at(post, handle),
                )
            }
        }),
{
    let n = pre.len() as int;
    let a = previous_of(n, corner);
    let handle = Slot::Handle(corner as usize, 0);
    let placed = with_position(pre, Slot::Vertex(a as usize), new_position);
    assert(same_shape(pre, placed));
    lemma_shape(pre, placed);
    lemma_shape_of_free(pre, placed);
    lemma_shape_of_only_curve(pre, placed, corner);
    lemma_only_curve(placed, corner);
    lemma_only_curve(pre, corner);
    assert(is_well_formed(placed)) by {
        assert forall|i: int| 0 <= i < n implies #[trigger] is_well_formed_at(placed, i) by {
            assert(is_free_at(placed, i));
        }
    }
    assert(!touches_curve(placed, a));
    let (reshaped_to, restored) = choose|reshaped_to: Seq<Point>, restored: Seq<Point>|
        {
            &&& #[trigger] freely_adjusted(placed, reshaped_to, a, pre[a].pos)
            &&& continuity_restored(reshaped_to, restored, a)
            &&& #[trigger] propagated(restored, post, a, true)
        };
    lemma_straight_free_adjustment(placed, reshaped_to, a, pre[a].pos);
    let half = choose|mid: Seq<Point>|
        continuity_adjusted(placed, mid, a, UpdateDirection::Left) && continuity_adjusted(
            mid,
            restored,
            a,
            UpdateDirection::Right,
        );
    assert(restored == placed);
    let between = choose|mid: Seq<Point>|
        walked_left(placed, mid, a) && walked_right(mid, post, a);
    // The walk to the left takes no step.
    let left_from = choose|mid: Seq<Point>|
        continuity_adjusted(placed, mid, a, UpdateDirection::Left) && left_walk(
            mid,
            between,
            a,
            left_length(placed, a),
        );
    assert(is_free_at(placed, previous_of(n, a)));
    assert(!touches_curve(placed, previous_of(n, a)));
    assert(!left_goes_on(placed, a, 0));
    assert(between == placed);
    // The walk to the right is its first step.
    let right_from = choose|mid: Seq<Point>|
        continuity_adjusted(placed, mid, a, UpdateDirection::Right) && right_walk(
            mid,
            post,
            a,
            right_length(placed, a),
        );
    assert(touches_curve(placed, corner));
    assert(right_goes_on(placed, a, 0));
    lemma_right_length_bound(placed, a, 1);
    assert forall|i: int|
        0 <= i < n && 1 <= ahead(n, a, i) < right_length(placed, a)
        implies #[trigger] is_idle_towards_end(placed, i) by {
        assert(is_free_at(placed, i));
        let end = next_of(n, i);
        assert(end != corner);
        if end != next_of(n, corner) {
            assert(!touches_curve(placed, end));
        }
    }
    lemma_right_walk_is_first_step(placed, post, a, right_length(placed, a));
    let dragged_to = choose|mid: Seq<Point>|
        dragged(placed, mid, corner, a, placed[a].constraint) && continuity_adjusted(
            mid,
            post,
            corner,
            UpdateDirection::Right,
        );
    assert(is_free_at(placed, a));
    assert(dragged_to == placed);
    let aligned_to = choose|mid: Seq<Point>|
        aligned(placed, mid, corner, UpdateDirection::Right) && mirrored(
            mid,
            post,
            corner,
            UpdateDirection::Right,
        );
    assert(is_free_at(placed, corner));
    assert(aligned_to == placed);
    assert(is_straight_at(placed, a));
    if coincide(new_position, pre[corner].pos) {
        lemma_handle_in_place(placed, corner, 0);
    }
}

/// After the vertex after the end of a curve segment has been moved, the
/// second handle of the curve continues the straight edge across the end,
/// as the continuity there asks: under `G1` opposite the moved vertex, as
/// far from the end as it was; under `C1` opposite it, a third as far from
/// the end as the moved vertex is. It stays where the vertex has been put
/// on the end. This holds on a contour of four vertices
/// or more without constraints, on which that curve segment is the only one
/// and no continuity rule acts at its start. The moved vertex is where it
/// was put, and nothing else has changed.
pub proof fn law_handle_follows_the_edge_after(
    pre: Seq<Point>,
    post: Seq<Point>,
    curve_start: int,
    new_position: Pos2,
)
    requires
        4 <= pre.len() <= usize::MAX,
        0 <= curve_start < pre.len(),
        is_free(pre),
        is_only_curve(pre, curve_start),
        answers(pre, next_of(pre.len() as int, curve_start)),
        !answers(pre, curve_start),
        vertex_moved(
            pre,
            post,
            next_of(pre.len() as int, next_of(pre.len() as int, curve_start)),
            new_position,
        ),
    ensures
        ({
            let corner = next_of(pre.len() as int, curve_start);
            let moved = next_of(pre.len() as int, corner);
            let placed = with_position(pre, Slot::Vertex(moved as usize), new_position);
            let handle = Slot::Handle(curve_start as usize, 1);
            &&& post == with_position(placed, handle, position_at(post, handle))
            &&& if coincide(new_position, pre[corner].pos) {
                post == placed
            } else {
                continues(
                    pre[corner].continuity_type,
                    LengthRatio::Third,
                    pre[corner].pos,
                    new_position,
                    position_at(pre, handle),
                    position_at(post, handle),
                )
            }
        }),
{
    let n = pre.len() as int;
    let v = curve_start;
    let w = next_of(n, v);
    let x = next_of(n, w);
    let placed = with_position(pre, Slot::Vertex(x as usize), new_position);
    assert(same_shape(pre, placed));
    lemma_shape(pre, placed);
    lemma_shape_of_free(pre, placed);
    lemma_shape_of_only_curve(pre, placed, v);
    lemma_only_curve(placed, v);
    lemma_only_curve(pre, v);
    assert(!touches_curve(placed, x));
    let (reshaped_to, restored) = choose|reshaped_to: Seq<Point>, restored: Seq<Point>|
        {
            &&& #[trigger] freely_adjusted(placed, reshaped_to, x, pre[x].pos)
            &&& continuity_restored(reshaped_to, restored, x)
            &&& #[trigger] propagated(restored, post, x, true)
        };
    lemma_straight_free_adjustment(placed, reshaped_to, x, pre[x].pos);
    let half = choose|mid: Seq<Point>|
        continuity_adjusted(placed, mid, x, UpdateDirection::Left) && continuity_adjusted(
            mid,
            restored,
            x,
            UpdateDirection::Right,
        );
    assert(restored == placed);
    let between = choose|mid: Seq<Point>|
        walked_left(placed, mid, x) && walked_right(mid, post, x);
    // The walk to the left is its first step.
    let left_from = choose|mid: Seq<Point>|
        continuity_adjusted(placed, mid, x, UpdateDirection::Left) && left_walk(
            mid,
            between,
            x,
            left_length(placed, x),
        );
    assert(previous_of(n, x) == w);
    assert(touches_curve(placed, w));
    assert(left_goes_on(placed, x, 0));
    lemma_left_length_bound(placed, x, 1);
    assert forall|i: int|
        0 <= i < n && 2 <= behind(n, x, i) <= left_length(placed, x)
        implies #[trigger] is_idle_towards_start(placed, i) by {
        assert(is_free_at(placed, i));
        assert(i != w);
        if i != v {
            assert(!touches_curve(placed, i));
        }
    }
    lemma_left_walk_is_first_step(placed, between, x, left_length(placed, x));
    let dragged_to = choose|mid: Seq<Point>|
        dragged(placed, mid, w, x, placed[w].constraint) && continuity_adjusted(
            mid,
            between,
            w,
            UpdateDirection::Left,
        );
    assert(is_free_at(placed, w));
    assert(dragged_to == placed);
    let aligned_to = choose|mid: Seq<Point>|
        aligned(placed, mid, w, UpdateDirection::Left) && mirrored(
            mid,
            between,
            w,
            UpdateDirection::Left,
        );
    assert(aligned_to == placed);
    assert(is_straight_at(placed, w));
    // The walk to the right takes no step.
    assert(same_shape(placed, between));
    lemma_shape(placed, between);
    lemma_shape_of_free(placed, between);
    lemma_shape_of_only_curve(placed, between, v);
    lemma_only_curve(between, v);
    let right_from = choose|mid: Seq<Point>|
        continuity_adjusted(between, mid, x, UpdateDirection::Right) && right_walk(
            mid,
            post,
            x,
            right_length(between, x),
        );
    assert(is_free_at(between, x));
    assert(!touches_curve(between, x));
    assert(!touches_curve(between, next_of(n, x)));
    assert(!right_goes_on(between, x, 0));
    assert(post == between);
    if coincide(new_position, pre[w].pos) {
        lemma_handle_in_place(placed, v, 1);
    }
}

/// After the second handle of a curve segment has been moved, the vertex
/// after the end of the curve continues the handle across the end, as the
/// continuity there asks: under `G1` opposite the handle, as far from the
/// end as it was; under `C1` opposite it, three times as far from the end
/// as the handle is. It stays where the handle has been put on the end. This holds on a contour of four vertices or more
/// without constraints, on which that curve segment is the only one and no
/// continuity rule acts at its start. Nothing else has changed.
pub proof fn law_vertex_follows_the_handle(pre: Seq<Point>, post: Seq<Point>, curve_start: int)
    requires
        4 <= pre.len() <= usize::MAX,
        0 <= curve_start < pre.len(),
        is_free(pre),
        is_only_curve(pre, curve_start),
        answers(pre, next_of(pre.len() as int, curve_start)),
        !answers(pre, curve_start),
        handle_moved(pre, post, curve_start, 1),
    ensures
        ({
            let corner = next_of(pre.len() as int, curve_start);
            let follower = Slot::Vertex(next_of(pre.len() as int, corner) as usize);
            let handle = position_at(pre, Slot::Handle(curve_start as usize, 1));
            &&& post == with_position(pre, follower, position_at(post, follower))
            &&& if coincide(handle, pre[corner].pos) {
                post == pre
            } else {
                continues(
                    pre[corner].continuity_type,
                    LengthRatio::Triple,
                    pre[corner].pos,
                    handle,
                    position_at(pre, follower),
                    position_at(post, follower),
                )
            }
        }),
{
    let n = pre.len() as int;
    let v = curve_start;
    let w = next_of(n, v);
    let x = next_of(n, w);
    lemma_only_curve(pre, v);
    assert(is_well_formed(pre)) by {
        assert forall|i: int| 0 <= i < n implies #[trigger] is_well_formed_at(pre, i) by {
            assert(is_free_at(pre, i));
        }
    }
    let (snapped, adjusted) = choose|snapped: Seq<Point>, adjusted: Seq<Point>|
        {
            &&& #[trigger] handle_snapped(pre, snapped, v, 1)
            &&& continuity_adjusted(snapped, adjusted, v, UpdateDirection::Right)
            &&& #[trigger] propagated(adjusted, post, v, false)
        };
    assert(is_free_at(pre, w));
    assert(snapped == pre);
    assert(adjusted == pre);
    let between = choose|mid: Seq<Point>|
        walked_right(pre, mid, v) && walked_left(mid, post, v);
    // The walk to the right is its first step.
    let right_from = choose|mid: Seq<Point>|
        continuity_adjusted(pre, mid, v, UpdateDirection::Right) && right_walk(
            mid,
            between,
            v,
            right_length(pre, v),
        );
    assert(touches_curve(pre, v));
    assert(right_goes_on(pre, v, 0));
    lemma_right_length_bound(pre, v, 1);
    assert forall|i: int|
        0 <= i < n && 1 <= ahead(n, v, i) < right_length(pre, v)
        implies #[trigger] is_idle_towards_end(pre, i) by {
        assert(is_free_at(pre, i));
        let end = next_of(n, i);
        assert(end != w);
        if end != v {
            assert(!touches_curve(pre, end));
        }
    }
    lemma_right_walk_is_first_step(pre, between, v, right_length(pre, v));
    let dragged_to = choose|mid: Seq<Point>|
        dragged(pre, mid, w, v, pre[v].constraint) && continuity_adjusted(
            mid,
            between,
            w,
            UpdateDirection::Right,
        );
    assert(is_free_at(pre, v));
    assert(dragged_to == pre);
    let aligned_to = choose|mid: Seq<Point>|
        aligned(pre, mid, w, UpdateDirection::Right) && mirrored(
            mid,
            between,
            w,
            UpdateDirection::Right,
        );
    assert(aligned_to == pre);
    assert(is_straight_at(pre, w));
    // The walk to the left takes one step, which finds nothing to do.
    assert(same_shape(pre, between));
    lemma_shape(pre, between);
    lemma_shape_of_free(pre, between);
    lemma_shape_of_only_curve(pre, between, v);
    lemma_only_curve(between, v);
    let left_from = choose|mid: Seq<Point>|
        continuity_adjusted(between, mid, v, UpdateDirection::Left) && left_walk(
            mid,
            post,
            v,
            left_length(between, v),
        );
    let before = previous_of(n, v);
    assert(touches_curve(between, v));
    assert(left_goes_on(between, v, 0));
    assert(is_free_at(between, before));
    assert(is_free_at(between, previous_of(n, before)));
    assert(!touches_curve(between, before));
    assert(!touches_curve(between, previous_of(n, before)));
    assert(!left_goes_on(between, v, 1));
    lemma_left_length(between, v, 0, 1);
    assert forall|i: int|
        0 <= i < n && 1 <= behind(n, v, i) <= 1 implies #[trigger] rests_towards_start(
        between,
        i,
    ) by {
        assert(i == before);
    }
    lemma_rest_left_walk(between, post, v, 1);
    assert(post == between);
    if coincide(position_at(pre, Slot::Handle(v as usize, 1)), pre[w].pos) {
        assert(between =~= with_position(pre, Slot::Vertex(x as usize), pre[x].pos));
    }
}

/// After the start of a curve segment has been moved, both handles of the
/// curve are carried about its end, turned as the offset from the end to
/// the start has turned and scaled by the ratio of its new length to its
/// old;
/// they stay where the start has not left its place or was at the place of
/// the end. This holds on a contour of three vertices or more without
/// constraints, on which that curve segment is the only one and no
/// continuity rule acts at either of its endpoints. The moved vertex is
/// where it was put, and nothing else has changed.
pub proof fn law_free_curve_follows_its_start(
    pre: Seq<Point>,
    post: Seq<Point>,
    curve_start: int,
    new_position: Pos2,
)
    requires
        3 <= pre.len() <= usize::MAX,
        0 <= curve_start < pre.len(),
        is_free(pre),
        is_only_curve(pre, curve_start),
        pre[curve_start].continuity_type == ContinuityType::G0,
        !answers(pre, next_of(pre.len() as int, curve_start)),
        vertex_moved(pre, post, curve_start, new_position),
    ensures
        ({
            let pivot = pre[next_of(pre.len() as int, curve_start)].pos;
            let placed = with_position(pre, Slot::Vertex(curve_start as usize), new_position);
            let were = pre[curve_start].bezier_data->0.inner_points;
            let are = post[curve_start].bezier_data->0.inner_points;
            if coincide(pre[curve_start].pos, new_position) || coincide(pre[curve_start].pos, pivot) {
                post == placed
            } else {
                &&& post == placed.update(
                    curve_start,
                    Point { bezier_data: Some(post[curve_start].bezier_data->0), ..placed[curve_start] },
                )
                &&& is_carried(were[0], pivot, pre[curve_start].pos, new_position, are[0])
                &&& is_carried(were[1], pivot, pre[curve_start].pos, new_position, are[1])
            }
        }),
{
    let n = pre.len() as int;
    let v = curve_start;
    let before = previous_of(n, v);
    let placed = with_position(pre, Slot::Vertex(v as usize), new_position);
    assert(same_shape(pre, placed));
    lemma_only_curve(pre, v);
    let (reshaped_to, restored) = choose|reshaped_to: Seq<Point>, restored: Seq<Point>|
        {
            &&& #[trigger] freely_adjusted(placed, reshaped_to, v, pre[v].pos)
            &&& continuity_restored(reshaped_to, restored, v)
            &&& #[trigger] propagated(restored, post, v, true)
        };
    let mid = choose|mid: Seq<Point>|
        {
            &&& reshaped(placed, mid, before, pre[v].pos, placed[v].pos, placed[before].pos)
            &&& reshaped(mid, reshaped_to, v, pre[v].pos, placed[v].pos, placed[next_of(n, v)].pos)
        };
    assert(is_straight_at(pre, before));
    assert(mid == placed);
    lemma_freely_adjusted(placed, reshaped_to, v, pre[v].pos);
    lemma_shape_chain(pre, placed, reshaped_to);
    lemma_shape(pre, reshaped_to);
    lemma_shape_of_free(pre, reshaped_to);
    lemma_shape_of_only_curve(pre, reshaped_to, v);
    lemma_only_curve(reshaped_to, v);
    assert forall|i: int| 0 <= i < n implies !#[trigger] answers(reshaped_to, i) by {
        if i != v && i != next_of(n, v) {
            assert(!touches_curve(reshaped_to, i));
        }
    }
    assert forall|i: int|
        0 <= i < n && 1 <= behind(n, v, i) <= left_length(reshaped_to, v)
        implies #[trigger] rests_towards_start(reshaped_to, i) by {
        assert(is_free_at(reshaped_to, i));
    }
    assert forall|i: int|
        0 <= i < n && ahead(n, v, i) < right_length(reshaped_to, v)
        implies #[trigger] rests_towards_end(reshaped_to, i) by {
        assert(is_free_at(reshaped_to, i));
    }
    let half = choose|half: Seq<Point>|
        continuity_adjusted(reshaped_to, half, v, UpdateDirection::Left) && continuity_adjusted(
            half,
            restored,
            v,
            UpdateDirection::Right,
        );
    assert(restored == reshaped_to);
    lemma_rest_propagation(reshaped_to, post, v, true);
}

} // verus!
