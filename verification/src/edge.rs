//! Edges as pairs of vertex indices, and the edges that share a vertex.
use crate::point::{next_of, Point};
use vstd::prelude::*;

verus! {

/// A restriction on an edge.
pub enum EdgeRestriction {
    Horizontal,
    Vertical,
    Width(i32),
}

/// One of the two endpoints of an edge.
pub enum EdgePointType {
    Start,
    End,
}

pub struct Edge {
    /// Index of the vertex at which the edge starts.
    pub start_index: usize,
    /// Index of the vertex at which the edge ends.
    pub end_index: usize,
    /// The restriction currently applied to the edge.
    pub restriction: Option<EdgeRestriction>,
}

/// Whether `point` is an endpoint of `edge`.
pub open spec fn has_endpoint(edge: Edge, point: usize) -> bool {
    edge.start_index == point || edge.end_index == point
}

/// The first edge at index `from` or later that has `point` as an endpoint.
pub open spec fn first_edge_from(edges: Seq<Edge>, point: usize, from: int) -> Option<usize>
    decreases edges.len() - from,
{
    if from < 0 || from >= edges.len() {
        None
    } else if has_endpoint(edges[from], point) {
        Some(from as usize)
    } else {
        first_edge_from(edges, point, from + 1)
    }
}

/// The first two edges that have `point` as an endpoint, as far as there are
/// any.
pub open spec fn adjacent_edges(edges: Seq<Edge>, point: usize) -> (Option<usize>, Option<usize>) {
    match first_edge_from(edges, point, 0) {
        Some(first) => (Some(first), first_edge_from(edges, point, first + 1)),
        None => (None, None),
    }
}

/// The endpoint of `edge` that `which` names.
pub open spec fn endpoint(edge: Edge, which: EdgePointType) -> usize {
    match which {
        EdgePointType::Start => edge.start_index,
        EdgePointType::End => edge.end_index,
    }
}

/// The edge that shares the given endpoint with edge `edge_index`: of the
/// first two edges at that vertex, the one that is not `edge_index`. There
/// is none where fewer than two edges meet at the vertex.
pub open spec fn edge_across(edges: Seq<Edge>, edge_index: usize, which: EdgePointType) -> Option<
    usize,
> {
    match adjacent_edges(edges, endpoint(edges[edge_index as int], which)) {
        (Some(first), Some(second)) => if first == edge_index {
            Some(second)
        } else {
            Some(first)
        },
        _ => None,
    }
}

/// Whether edge `index` exists and is horizontal or vertical.
pub open spec fn is_axis_aligned(edges: Seq<Edge>, index: Option<usize>) -> bool {
    match index {
        Some(i) => i < edges.len() && (edges[i as int].restriction matches Some(
            EdgeRestriction::Horizontal,
        ) || edges[i as int].restriction matches Some(EdgeRestriction::Vertical)),
        None => false,
    }
}

impl Point {
    /// The first two edges that have vertex `point_index` as an endpoint.
    pub fn find_adjacent_edges(point_index: usize, edges: &[Edge]) -> (r: (Option<usize>, Option<usize>))
        ensures
            r == adjacent_edges(edges@, point_index),
            r.0 matches Some(i) ==> i < edges.len(),
            r.1 matches Some(i) ==> i < edges.len(),
    {
        match first_edge_at(edges, point_index, 0) {
            Some(first) => (Some(first), first_edge_at(edges, point_index, first + 1)),
            None => (None, None),
        }
    }
}

/// Scans `edges` from index `from` for an edge at `point`.
fn first_edge_at(edges: &[Edge], point: usize, from: usize) -> (r: Option<usize>)
    requires
        from <= edges.len(),
    ensures
        r == first_edge_from(edges@, point, from as int),
        r matches Some(i) ==> from <= i < edges.len(),
{
    let mut i: usize = from;
    while i < edges.len()
        invariant
            from <= i <= edges.len(),
            first_edge_from(edges@, point, from as int) == first_edge_from(edges@, point, i as int),
        decreases edges.len() - i,
    {
        if edges[i].start_index == point || edges[i].end_index == point {
            return Some(i);
        }
        i += 1;
    }
    None
}

impl Edge {
    /// An unrestricted edge between two vertices.
    pub fn new(start_index: usize, end_index: usize) -> (r: Self)
        ensures
            r.start_index == start_index,
            r.end_index == end_index,
            r.restriction is None,
    {
        Edge { start_index, end_index, restriction: None }
    }

    /// The edges of the closed contour through `points`: edge `i` leads from
    /// vertex `i` to the vertex that follows it, and none is restricted.
    pub fn from_points(points: &[Point]) -> (r: Vec<Self>)
        ensures
            r@.len() == points@.len(),
            forall|i: int|
                0 <= i < r@.len() ==> {
                    &&& (#[trigger] r@[i]).start_index == i
                    &&& r@[i].end_index == next_of(points@.len() as int, i)
                    &&& r@[i].restriction is None
                },
    {
        let mut edges: Vec<Self> = Vec::new();
        let mut i: usize = 0;
        while i < points.len()
            invariant
                i <= points.len(),
                edges@.len() == i,
                forall|k: int|
                    0 <= k < i ==> {
                        &&& (#[trigger] edges@[k]).start_index == k
                        &&& edges@[k].end_index == next_of(points@.len() as int, k)
                        &&& edges@[k].restriction is None
                    },
            decreases points.len() - i,
        {
            let end_index = Point::get_next_index(points, i);
            edges.push(Self::new(i, end_index));
            i += 1;
        }
        edges
    }

    /// The endpoint opposite to `point_index`: the end of the edge for its
    /// start, the start for any other index.
    pub fn take_other_point(&self, point_index: usize) -> (r: usize)
        ensures
            r == if self.start_index == point_index {
                self.end_index
            } else {
                self.start_index
            },
    {
        if self.start_index == point_index {
            self.end_index
        } else {
            self.start_index
        }
    }

    pub fn has_restriction(&self) -> (r: bool)
        ensures
            r == (self.restriction is Some),
    {
        self.restriction.is_some()
    }

    pub fn has_horizontal_or_vertical_restriction(&self) -> (r: bool)
        ensures
            r == (self.restriction matches Some(EdgeRestriction::Horizontal) || self.restriction matches Some(
                EdgeRestriction::Vertical,
            )),
    {
        match self.restriction {
            Some(EdgeRestriction::Horizontal) => true,
            Some(EdgeRestriction::Vertical) => true,
            _ => false,
        }
    }

    pub fn restriction(&self) -> (r: &Option<EdgeRestriction>)
        ensures
            *r == self.restriction,
    {
        &self.restriction
    }

    pub fn remove_restriction(&mut self)
        ensures
            final(self).restriction is None,
            final(self).start_index == old(self).start_index,
            final(self).end_index == old(self).end_index,
    {
        self.restriction = None;
    }

    pub fn apply_horizontal_restriction(&mut self)
        ensures
            final(self).restriction == Some(EdgeRestriction::Horizontal),
            final(self).start_index == old(self).start_index,
            final(self).end_index == old(self).end_index,
    {
        self.restriction = Some(EdgeRestriction::Horizontal);
    }

    pub fn apply_vertical_restriction(&mut self)
        ensures
            final(self).restriction == Some(EdgeRestriction::Vertical),
            final(self).start_index == old(self).start_index,
            final(self).end_index == old(self).end_index,
    {
        self.restriction = Some(EdgeRestriction::Vertical);
    }

    pub fn apply_width_restriction(&mut self, width: i32)
        ensures
            final(self).restriction == Some(EdgeRestriction::Width(width)),
            final(self).start_index == old(self).start_index,
            final(self).end_index == old(self).end_index,
    {
        self.restriction = Some(EdgeRestriction::Width(width));
    }

    /// The edge that shares its start with edge `edge_index`, and the edge
    /// that shares its end with it.
    pub fn find_edge_adjacent_edges(edge_index: usize, edges: &[Edge]) -> (r: (
        Option<usize>,
        Option<usize>,
    ))
        requires
            edge_index < edges.len(),
        ensures
            r.0 == edge_across(edges@, edge_index, EdgePointType::Start),
            r.1 == edge_across(edges@, edge_index, EdgePointType::End),
            r.0 matches Some(i) ==> i < edges.len(),
            r.1 matches Some(i) ==> i < edges.len(),
    {
        (
            Self::find_edge_adjacent_edge_with_common_point(edge_index, edges, EdgePointType::Start),
            Self::find_edge_adjacent_edge_with_common_point(edge_index, edges, EdgePointType::End),
        )
    }

    /// The edge that shares the endpoint `point` with edge `edge_index`.
    pub fn find_edge_adjacent_edge_with_common_point(
        edge_index: usize,
        edges: &[Edge],
        point: EdgePointType,
    ) -> (r: Option<usize>)
        requires
            edge_index < edges.len(),
        ensures
            r == edge_across(edges@, edge_index, point),
            r matches Some(i) ==> i < edges.len(),
    {
        let point_index = match point {
            EdgePointType::Start => edges[edge_index].start_index,
            EdgePointType::End => edges[edge_index].end_index,
        };
        match Point::find_adjacent_edges(point_index, edges) {
            (Some(first), Some(second)) => {
                if first == edge_index {
                    Some(second)
                } else {
                    Some(first)
                }
            },
            _ => None,
        }
    }

    /// Whether an edge that shares an endpoint with edge `edge_index` is
    /// horizontal or vertical.
    pub fn neighours_have_vertical_or_horizontal_restriction(edges: &[Edge], edge_index: usize) -> (r:
        bool)
        requires
            edge_index < edges.len(),
        ensures
            r == (is_axis_aligned(edges@, edge_across(edges@, edge_index, EdgePointType::Start))
                || is_axis_aligned(edges@, edge_across(edges@, edge_index, EdgePointType::End))),
    {
        let adjacent_edges = Self::find_edge_adjacent_edges(edge_index, edges);
        let first_with_restrictions = if let Some(id) = adjacent_edges.0 {
            edges[id].has_horizontal_or_vertical_restriction()
        } else {
            false
        };
        let second_with_restrictions = if let Some(id) = adjacent_edges.1 {
            edges[id].has_horizontal_or_vertical_restriction()
        } else {
            false
        };
        first_with_restrictions || second_with_restrictions
    }
}

} // verus!
