//! A closed polygonal contour whose edges may carry orientation or length
//! constraints and may be cubic curve segments with continuity conditions,
//! and the propagation that keeps those conditions satisfied when a vertex
//! or a curve handle is moved.
//!
//! - [`point`] holds the vertices and what each carries for its edge;
//!   [`bezier`] the handles of a curve segment.
//! - [`geometry`] holds the positions and the vector arithmetic, which is
//!   that of `emath`.
//! - [`propagation`] holds the rules and the two walks, and the edits that
//!   start them: moving a vertex, moving a handle.
//! - [`topology`] adds and removes vertices and translates the contour.
//! - [`frames`] and [`laws`] state and prove what holds of the edits in
//!   general.
//! - [`edge`] describes edges by the indices of their endpoints, and
//!   [`drawer`] computes the pixels of straight lines.
pub mod bezier;
pub mod drawer;
pub mod edge;
pub mod frames;
pub mod geometry;
pub mod laws;
pub mod point;
pub mod propagation;
pub mod topology;
