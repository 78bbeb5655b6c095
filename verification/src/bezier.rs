//! The two control handles of a cubic curve segment.
use egui::Pos2;
use vstd::prelude::*;

verus! {

/// The control handles of the curve segment that starts at a vertex: the
/// handle near that vertex first, the handle near the next vertex second.
#[derive(Clone, Copy)]
pub struct BezierData {
    pub inner_points: [Pos2; 2],
}

impl BezierData {
    pub fn new(inner_points: [Pos2; 2]) -> (r: Self)
        ensures
            r.inner_points == inner_points,
    {
        Self { inner_points }
    }

    pub fn inner_points(&self) -> (r: &[Pos2; 2])
        ensures
            *r == self.inner_points,
    {
        &self.inner_points
    }

    /// The two handles, to be changed in place.
    pub fn inner_points_mut(&mut self) -> (r: &mut [Pos2; 2])
        ensures
            *r == old(self).inner_points,
            final(self).inner_points == *final(r),
    {
        &mut self.inner_points
    }

    /// Puts the handle `index` at `new_position` and leaves the other where
    /// it is.
    pub fn update_inner_point_position(&mut self, index: usize, new_position: Pos2)
        requires
            index < 2,
        ensures
            final(self).inner_points@ == old(self).inner_points@.update(index as int, new_position),
    {
        self.inner_points[index] = new_position;
    }
}

} // verus!
