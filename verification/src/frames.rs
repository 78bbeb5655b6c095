//! Which vertices a rule of the propagation can move, and where it puts
//! them. The laws on constrained edges are proved from these.
use crate::geometry::{at_column_of, at_height_of, coincide};
use crate::point::{next_of, previous_of, touches_curve, ContinuityType, EdgeConstraint, Point};
use crate::propagation::{
    aligned, constrained, continuity_adjusted, dragged, end_after, end_before, freely_adjusted,
    has_slot, left_step, lemma_ends_follow_shape, mirrored, position_at, reshaped, right_step,
    same_shape, settled, Slot, UpdateDirection,
};
use egui::Pos2;
use vstd::prelude::*;

verus! {

/// Whether the edge that starts at vertex `i` is not a constrained edge and
/// a curve segment at once.
pub open spec fn is_well_formed_at(s: Seq<Point>, i: int) -> bool {
    !(s[i].constraint is Some && s[i].bezier_data is Some)
}

/// Whether no edge of the contour is a constrained edge and a curve segment
/// at once. Whoever turns an edge into a curve segment clears its
/// constraint, so the contours that an editor holds are of this kind.
pub open spec fn is_well_formed(s: Seq<Point>) -> bool {
    forall|i: int| 0 <= i < s.len() ==> #[trigger] is_well_formed_at(s, i)
}

/// Whether a continuity rule acts at vertex `v`: it is an endpoint of a
/// curve segment and asks for `G1` or `C1`.
pub open spec fn answers(s: Seq<Point>, v: int) -> bool {
    touches_curve(s, v) && s[v].continuity_type != ContinuityType::G0
}

/// Whether every vertex but `first` and `second` is where it was.
pub open spec fn others_stay(pre: Seq<Point>, post: Seq<Point>, first: int, second: int) -> bool {
    forall|v: int|
        0 <= v < pre.len() && v != first && v != second ==> (#[trigger] post[v]).pos == pre[v].pos
}

/// Where an edge with `constraint` puts its endpoint that was at `moved`
/// while the other stays at `fixed`, for the constraints that copy a
/// coordinate; for none and for a width, `moved` itself.
pub open spec fn copied(constraint: Option<EdgeConstraint>, moved: Pos2, fixed: Pos2) -> Pos2 {
    match constraint {
        Some(EdgeConstraint::Horizontal) => at_height_of(moved, fixed),
        Some(EdgeConstraint::Vertical) => at_column_of(moved, fixed),
        _ => moved,
    }
}

/// Being well formed, and where the continuity rules act, depend on the
/// shape alone.
pub proof fn lemma_shape(a: Seq<Point>, b: Seq<Point>)
    requires
        same_shape(a, b),
    ensures
        same_shape(b, a),
        is_well_formed(a) == is_well_formed(b),
        forall|v: int| 0 <= v < a.len() ==> answers(a, v) == #[trigger] answers(b, v),
{
    assert forall|i: int| 0 <= i < b.len() implies {
        &&& (#[trigger] b[i]).constraint == a[i].constraint
        &&& b[i].continuity_type == a[i].continuity_type
        &&& (b[i].bezier_data is Some) == (a[i].bezier_data is Some)
    } by {
        assert(a[i].constraint == b[i].constraint);
    }
    assert forall|v: int| 0 <= v < a.len() implies answers(a, v) == #[trigger] answers(b, v) by {
        lemma_ends_follow_shape(a, b, v);
        assert(a[v].constraint == b[v].constraint);
    }
    if is_well_formed(a) {
        assert forall|i: int| 0 <= i < b.len() implies #[trigger] is_well_formed_at(b, i) by {
            assert(is_well_formed_at(a, i));
            assert(a[i].constraint == b[i].constraint);
        }
    }
    if is_well_formed(b) {
        assert forall|i: int| 0 <= i < a.len() implies #[trigger] is_well_formed_at(a, i) by {
            assert(is_well_formed_at(b, i));
            assert(a[i].constraint == b[i].constraint);
        }
    }
}

/// Shapes that are the same as a third are the same.
pub proof fn lemma_shape_chain(a: Seq<Point>, b: Seq<Point>, c: Seq<Point>)
    requires
        same_shape(a, b),
        same_shape(b, c),
    ensures
        same_shape(a, c),
{
    assert forall|i: int| 0 <= i < a.len() implies {
        &&& (#[trigger] a[i]).constraint == c[i].constraint
        &&& a[i].continuity_type == c[i].continuity_type
        &&& (a[i].bezier_data is Some) == (c[i].bezier_data is Some)
    } by {
        assert(a[i].constraint == b[i].constraint);
        assert(b[i].constraint == c[i].constraint);
    }
}

/// A computed position moves the vertex of its slot, if the slot is a
/// vertex, and no other vertex; the shape stays.
pub proof fn lemma_settled(pre: Seq<Point>, post: Seq<Point>, slot: Slot, skipped: bool)
    requires
        pre.len() <= usize::MAX,
        has_slot(pre, slot),
        settled(pre, post, slot, skipped),
    ensures
        same_shape(pre, post),
        forall|v: int|
            0 <= v < pre.len() && slot != Slot::Vertex(v as usize) ==> (#[trigger] post[v]).pos
                == pre[v].pos,
{
}


/// A free adjustment moves no vertex and keeps the shape.
pub proof fn lemma_freely_adjusted(pre: Seq<Point>, post: Seq<Point>, v: int, anchor_was: Pos2)
    requires
        0 <= v < pre.len(),
        freely_adjusted(pre, post, v, anchor_was),
    ensures
        same_shape(pre, post),
        forall|u: int| 0 <= u < pre.len() ==> (#[trigger] post[u]).pos == pre[u].pos,
{
    if pre[v].continuity_type == ContinuityType::G0 {
        let n = pre.len() as int;
        let before = previous_of(n, v);
        let mid = choose|mid: Seq<Point>|
            {
                &&& reshaped(pre, mid, before, anchor_was, pre[v].pos, pre[before].pos)
                &&& reshaped(mid, post, v, anchor_was, pre[v].pos, pre[next_of(n, v)].pos)
            };
        assert(same_shape(pre, mid));
        assert(same_shape(mid, post));
        lemma_shape_chain(pre, mid, post);
        assert forall|u: int| 0 <= u < pre.len() implies (#[trigger] post[u]).pos == pre[u].pos by {
            assert(mid[u].pos == pre[u].pos);
        }
    }
}

/// An edge that drags an endpoint moves that endpoint and no other vertex.
/// A horizontal or a vertical edge puts it where the copied coordinate
/// says; an edge without constraint leaves it.
pub proof fn lemma_dragged(
    pre: Seq<Point>,
    post: Seq<Point>,
    moved: int,
    fixed: int,
    constraint: Option<EdgeConstraint>,
)
    requires
        pre.len() <= usize::MAX,
        0 <= moved < pre.len(),
        0 <= fixed < pre.len(),
        dragged(pre, post, moved, fixed, constraint),
    ensures
        same_shape(pre, post),
        others_stay(pre, post, moved, moved),
        !(constraint matches Some(EdgeConstraint::ConstWidth(_))) ==> post[moved].pos == copied(
            constraint,
            pre[moved].pos,
            pre[fixed].pos,
        ),
{
    match constraint {
        Some(c) => {
            let mid = choose|mid: Seq<Point>|
                constrained(pre, mid, moved, fixed, c) && freely_adjusted(
                    mid,
                    post,
                    moved,
                    pre[moved].pos,
                );
            assert(same_shape(pre, mid));
            lemma_freely_adjusted(mid, post, moved, pre[moved].pos);
            lemma_shape_chain(pre, mid, post);
            assert forall|v: int| 0 <= v < pre.len() && v != moved implies (#[trigger] post[v]).pos
                == pre[v].pos by {
                assert(mid[v].pos == pre[v].pos);
            }
            assert(post[moved].pos == mid[moved].pos);
        },
        None => {},
    }
}

/// On a well-formed contour of three vertices or more, a continuity
/// adjustment towards the right moves at most the vertex after `p`, and
/// that one only where the rule acts at `p` and the edge that leaves `p` is
/// straight.
pub proof fn lemma_continuity_right(pre: Seq<Point>, post: Seq<Point>, p: int)
    requires
        3 <= pre.len() <= usize::MAX,
        0 <= p < pre.len(),
        is_well_formed(pre),
        continuity_adjusted(pre, post, p, UpdateDirection::Right),
    ensures
        same_shape(pre, post),
        others_stay(pre, post, next_of(pre.len() as int, p), next_of(pre.len() as int, p)),
        !answers(pre, p) || pre[p].bezier_data is Some ==> post[next_of(pre.len() as int, p)].pos
            == pre[next_of(pre.len() as int, p)].pos,
{
    let n = pre.len() as int;
    if answers(pre, p) {
        let mid = choose|mid: Seq<Point>|
            aligned(pre, mid, p, UpdateDirection::Right) && mirrored(
                mid,
                post,
                p,
                UpdateDirection::Right,
            );
        assert(is_well_formed_at(pre, p));
        let stay = end_before(pre, p);
        assert(same_shape(pre, mid) && forall|v: int|
            0 <= v < n ==> (#[trigger] mid[v]).pos == pre[v].pos) by {
            if pre[p].constraint is Some {
                assert(stay is Handle);
            }
        }
        lemma_ends_follow_shape(pre, mid, p);
        let moving = end_after(mid, p);
        lemma_settled(
            mid,
            post,
            moving,
            coincide(
                position_at(mid, end_before(mid, p)),
                mid[p].pos,
            ),
        );
        lemma_shape_chain(pre, mid, post);
        assert forall|v: int| 0 <= v < n && v != next_of(n, p) implies (#[trigger] post[v]).pos
            == pre[v].pos by {
            assert(mid[v].pos == pre[v].pos);
        }
        if pre[p].bezier_data is Some {
            assert(post[next_of(n, p)].pos == mid[next_of(n, p)].pos);
        }
    }
}

/// On a contour of three vertices or more, a continuity adjustment towards
/// the left moves at most the two neighbours of `p`. The vertex after `p`
/// gets a copied coordinate where the rule acts at `p` and the edge that
/// leaves `p` is straight, and stays otherwise. The vertex before `p` stays
/// unless the rule acts at `p` and the edge that arrives at `p` is
/// straight.
pub proof fn lemma_continuity_left(pre: Seq<Point>, post: Seq<Point>, p: int)
    requires
        3 <= pre.len() <= usize::MAX,
        0 <= p < pre.len(),
        continuity_adjusted(pre, post, p, UpdateDirection::Left),
    ensures
        same_shape(pre, post),
        others_stay(pre, post, next_of(pre.len() as int, p), previous_of(pre.len() as int, p)),
        post[next_of(pre.len() as int, p)].pos == if answers(pre, p) && pre[p].bezier_data is None {
            copied(pre[p].constraint, pre[next_of(pre.len() as int, p)].pos, pre[p].pos)
        } else {
            pre[next_of(pre.len() as int, p)].pos
        },
        !answers(pre, p) || pre[previous_of(pre.len() as int, p)].bezier_data is Some ==> post[previous_of(
            pre.len() as int,
            p,
        )].pos == pre[previous_of(pre.len() as int, p)].pos,
{
    let n = pre.len() as int;
    let after = next_of(n, p);
    let before = previous_of(n, p);
    if answers(pre, p) {
        let mid = choose|mid: Seq<Point>|
            aligned(pre, mid, p, UpdateDirection::Left) && mirrored(
                mid,
                post,
                p,
                UpdateDirection::Left,
            );
        let stay = end_after(pre, p);
        assert(same_shape(pre, mid));
        assert(forall|v: int| 0 <= v < n && v != after ==> (#[trigger] mid[v]).pos == pre[v].pos);
        assert(mid[after].pos == if pre[p].bezier_data is None {
            copied(pre[p].constraint, pre[after].pos, pre[p].pos)
        } else {
            pre[after].pos
        });
        lemma_ends_follow_shape(pre, mid, p);
        let moving = end_before(mid, p);
        lemma_settled(
            mid,
            post,
            moving,
            coincide(
                position_at(mid, end_after(mid, p)),
                mid[p].pos,
            ),
        );
        lemma_shape_chain(pre, mid, post);
        assert forall|v: int| 0 <= v < n && v != after && v != before implies (#[trigger] post[v]).pos
            == pre[v].pos by {
            assert(mid[v].pos == pre[v].pos);
        }
        assert(post[after].pos == mid[after].pos);
        if pre[before].bezier_data is Some {
            assert(post[before].pos == mid[before].pos);
        }
    }
}


/// On a well-formed contour of three vertices or more, a step of the walk
/// to the right moves at most the end of its edge and the vertex after
/// that. The end goes where the constraint of the edge says. The vertex
/// after it stays unless a continuity rule acts at the end and the edge
/// that leaves the end is straight.
pub proof fn lemma_right_step(pre: Seq<Point>, post: Seq<Point>, right: int)
    requires
        3 <= pre.len() <= usize::MAX,
        0 <= right < pre.len(),
        is_well_formed(pre),
        right_step(pre, post, right),
    ensures
        same_shape(pre, post),
        ({
            let n = pre.len() as int;
            let end = next_of(n, right);
            let beyond = next_of(n, end);
            &&& others_stay(pre, post, end, beyond)
            &&& !(pre[right].constraint matches Some(EdgeConstraint::ConstWidth(_))) ==> post[end].pos
                == copied(pre[right].constraint, pre[end].pos, pre[right].pos)
            &&& !answers(pre, end) || pre[end].bezier_data is Some ==> post[beyond].pos
                == pre[beyond].pos
        }),
{
    let n = pre.len() as int;
    let end = next_of(n, right);
    let beyond = next_of(n, end);
    let mid = choose|mid: Seq<Point>|
        dragged(pre, mid, end, right, pre[right].constraint) && continuity_adjusted(
            mid,
            post,
            end,
            UpdateDirection::Right,
        );
    lemma_dragged(pre, mid, end, right, pre[right].constraint);
    lemma_shape(pre, mid);
    lemma_continuity_right(mid, post, end);
    lemma_shape_chain(pre, mid, post);
    assert(mid[end].bezier_data is Some == pre[end].bezier_data is Some) by {
        assert(pre[end].constraint == mid[end].constraint);
    }
    assert forall|v: int| 0 <= v < n && v != end && v != beyond implies (#[trigger] post[v]).pos
        == pre[v].pos by {
        assert(mid[v].pos == pre[v].pos);
    }
    assert(post[end].pos == mid[end].pos);
    assert(mid[beyond].pos == pre[beyond].pos);
}

/// On a contour of three vertices or more, a step of the walk to the left
/// moves at most the start of its edge and the vertex before that. The
/// start goes where the constraint of the edge says. The vertex before it
/// stays unless a continuity rule acts at the start and the edge that
/// arrives at the start is straight. The end of the edge stays: what the
/// continuity rule copies to it is what the edge has just copied from it.
pub proof fn lemma_left_step(pre: Seq<Point>, post: Seq<Point>, left: int)
    requires
        3 <= pre.len() <= usize::MAX,
        0 <= left < pre.len(),
        left_step(pre, post, left),
    ensures
        same_shape(pre, post),
        ({
            let n = pre.len() as int;
            let start = previous_of(n, left);
            let beyond = previous_of(n, start);
            &&& others_stay(pre, post, start, beyond)
            &&& !(pre[start].constraint matches Some(EdgeConstraint::ConstWidth(_))) ==> post[start].pos
                == copied(pre[start].constraint, pre[start].pos, pre[left].pos)
            &&& !answers(pre, start) || pre[beyond].bezier_data is Some ==> post[beyond].pos
                == pre[beyond].pos
        }),
{
    let n = pre.len() as int;
    let start = previous_of(n, left);
    let beyond = previous_of(n, start);
    let mid = choose|mid: Seq<Point>|
        dragged(pre, mid, start, left, pre[start].constraint) && continuity_adjusted(
            mid,
            post,
            start,
            UpdateDirection::Left,
        );
    lemma_dragged(pre, mid, start, left, pre[start].constraint);
    lemma_shape(pre, mid);
    lemma_continuity_left(mid, post, start);
    lemma_shape_chain(pre, mid, post);
    assert(pre[start].constraint == mid[start].constraint);
    assert(mid[beyond].bezier_data is Some == pre[beyond].bezier_data is Some) by {
        assert(pre[beyond].constraint == mid[beyond].constraint);
    }
    assert(next_of(n, start) == left);
    assert(mid[left].pos == pre[left].pos);
    assert(post[left].pos == pre[left].pos);
    assert forall|v: int| 0 <= v < n && v != start && v != beyond implies (#[trigger] post[v]).pos
        == pre[v].pos by {
        assert(mid[v].pos == pre[v].pos);
    }
    assert(post[start].pos == mid[start].pos);
    assert(mid[beyond].pos == pre[beyond].pos);
}

} // verus!
