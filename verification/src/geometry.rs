//! Positions and vectors of the plane.
//!
//! Coordinates are floating-point numbers. This module never computes with
//! them itself: it hands positions and vectors to `emath` and takes the
//! results back. What `emath` returns is rounded, so the contracts here say
//! of a computed coordinate which operation it results from, on which
//! operands, and not which number it is. Where `emath` takes a length or an
//! angle, which it does with functions of unspecified precision, the
//! contracts say which vectors went in and which vector came out, by a
//! relation between their bit patterns that has a name and no definition.
//! Copying a coordinate, on the other hand, is exact, and the propagation
//! rules that only copy are specified to the last bit.
use egui::emath::Rot2;
use egui::{Pos2, Vec2};
use vstd::float::{float_cast_spec, FloatBitsProperties};
use vstd::prelude::*;
use vstd::std_specs::ops::{add_ensures, div_ensures, mul_ensures, neg_ensures, sub_ensures};

verus! {

/// `emath::Pos2`: a position, with public coordinates `x` and `y`.
#[verifier::external_type_specification]
pub struct ExPos2(egui::Pos2);

/// `emath::Vec2`: a displacement, with public coordinates `x` and `y`.
#[verifier::external_type_specification]
pub struct ExVec2(egui::Vec2);

/// Whether two coordinates, given by their bit patterns, are equal as
/// numbers: neither is a NaN, and they are the same number or both are a
/// zero of either sign.
pub open spec fn coordinates_equal(a: u32, b: u32) -> bool {
    let a_magnitude = if a >= 0x8000_0000 { (a - 0x8000_0000) as u32 } else { a };
    let b_magnitude = if b >= 0x8000_0000 { (b - 0x8000_0000) as u32 } else { b };
    &&& a_magnitude <= 0x7f80_0000
    &&& b_magnitude <= 0x7f80_0000
    &&& (a == b || (a_magnitude == 0 && b_magnitude == 0))
}

/// Whether two positions are the same place: both coordinates are equal as
/// numbers.
pub open spec fn coincide(a: Pos2, b: Pos2) -> bool {
    &&& coordinates_equal(a.x.to_bits_spec(), b.x.to_bits_spec())
    &&& coordinates_equal(a.y.to_bits_spec(), b.y.to_bits_spec())
}

/// The position with the abscissa of `p` and the ordinate of `level`.
pub open spec fn at_height_of(p: Pos2, level: Pos2) -> Pos2 {
    Pos2 { x: p.x, y: level.y }
}

/// The position with the ordinate of `p` and the abscissa of `column`.
pub open spec fn at_column_of(p: Pos2, column: Pos2) -> Pos2 {
    Pos2 { x: column.x, y: p.y }
}

/// Whether each coordinate of `r` is a floating-point sum of that coordinate
/// of `p` and of `v`.
pub open spec fn is_sum(p: Pos2, v: Vec2, r: Pos2) -> bool {
    add_ensures(p.x, v.x, r.x) && add_ensures(p.y, v.y, r.y)
}

/// Whether each coordinate of `r` is a floating-point difference of that
/// coordinate of `p` and of `v`: `p` displaced against `v`.
pub open spec fn is_difference(p: Pos2, v: Vec2, r: Pos2) -> bool {
    sub_ensures(p.x, v.x, r.x) && sub_ensures(p.y, v.y, r.y)
}

/// Whether `r` leads from `origin` to `target`: each of its coordinates is a
/// floating-point difference of that coordinate of `target` and of
/// `origin`.
pub open spec fn is_offset(origin: Pos2, target: Pos2, r: Vec2) -> bool {
    sub_ensures(target.x, origin.x, r.x) && sub_ensures(target.y, origin.y, r.y)
}

/// Whether `r` is `v` times some number: both coordinates are
/// floating-point products by the same number.
pub open spec fn is_scaled(v: Vec2, r: Vec2) -> bool {
    exists|number| #[trigger] mul_ensures(v.x, number, r.x) && mul_ensures(v.y, number, r.y)
}

/// Whether `r` is `v` over some number: both coordinates are
/// floating-point quotients by the same number.
pub open spec fn is_shrunk(v: Vec2, r: Vec2) -> bool {
    exists|number| #[trigger] div_ensures(v.x, number, r.x) && div_ensures(v.y, number, r.y)
}

// Whether the vector with the coordinates `rx`, `ry` is what normalizing
// the vector with the coordinates `vx`, `vy` gives. All are bit patterns.
pub uninterp spec fn normalized_from(vx: u32, vy: u32, rx: u32, ry: u32) -> bool;

// Whether the vector `rx`, `ry` is the vector `vx`, `vy` times the length of
// the vector `mx`, `my`. All are bit patterns.
pub uninterp spec fn scaled_by_length(vx: u32, vy: u32, mx: u32, my: u32, rx: u32, ry: u32) -> bool;

// Whether the vector `rx`, `ry` is the vector `vx`, `vy` over the length of
// the vector `mx`, `my`. All are bit patterns.
pub uninterp spec fn shrunk_by_length(vx: u32, vy: u32, mx: u32, my: u32, rx: u32, ry: u32) -> bool;

// Whether the vector `rx`, `ry` is the vector `vx`, `vy` turned as far as
// the vector `fx`, `fy` has to turn to point where the vector `tx`, `ty`
// points. All are bit patterns.
pub uninterp spec fn turned_between(
    vx: u32,
    vy: u32,
    fx: u32,
    fy: u32,
    tx: u32,
    ty: u32,
    rx: u32,
    ry: u32,
) -> bool;

/// Whether `r` is `v` made a unit vector: it is what normalizing `v` gives,
/// and that is `v` over some number, or `v` itself, which is what is left
/// of a vector without length.
pub open spec fn is_normalized(v: Vec2, r: Vec2) -> bool {
    &&& r == v || is_shrunk(v, r)
    &&& normalized_from(
        v.x.to_bits_spec(),
        v.y.to_bits_spec(),
        r.x.to_bits_spec(),
        r.y.to_bits_spec(),
    )
}

/// Whether `r` is `v` times the length of `model`: it is `v` times some
/// number, and the number is that length.
pub open spec fn is_times_length(v: Vec2, model: Vec2, r: Vec2) -> bool {
    &&& is_scaled(v, r)
    &&& scaled_by_length(
        v.x.to_bits_spec(),
        v.y.to_bits_spec(),
        model.x.to_bits_spec(),
        model.y.to_bits_spec(),
        r.x.to_bits_spec(),
        r.y.to_bits_spec(),
    )
}

/// Whether `r` is `v` over the length of `model`: it is `v` over some
/// number, and the number is that length.
pub open spec fn is_over_length(v: Vec2, model: Vec2, r: Vec2) -> bool {
    &&& is_shrunk(v, r)
    &&& shrunk_by_length(
        v.x.to_bits_spec(),
        v.y.to_bits_spec(),
        model.x.to_bits_spec(),
        model.y.to_bits_spec(),
        r.x.to_bits_spec(),
        r.y.to_bits_spec(),
    )
}

/// Whether `r` is `v` times `factor`: both coordinates are floating-point
/// products by the number that `factor` converts to.
pub open spec fn is_multiple(v: Vec2, factor: i32, r: Vec2) -> bool {
    exists|number|
        {
            &&& float_cast_spec(factor, number)
            &&& #[trigger] mul_ensures(v.x, number, r.x)
            &&& mul_ensures(v.y, number, r.y)
        }
}

/// Whether `r` is `v` over `divisor`: both coordinates are floating-point
/// quotients by the number that `divisor` converts to.
pub open spec fn is_fraction(v: Vec2, divisor: i32, r: Vec2) -> bool {
    exists|number|
        {
            &&& float_cast_spec(divisor, number)
            &&& #[trigger] div_ensures(v.x, number, r.x)
            &&& div_ensures(v.y, number, r.y)
        }
}

/// Whether `r` is `v` turned, and scaled, by some rotation: with the cosine
/// `c` and the sine `s` of the rotation, the abscissa of `r` is
/// `c * v.x - s * v.y` and its ordinate `s * v.x + c * v.y`, each operation
/// a floating-point one.
pub open spec fn is_rotated(v: Vec2, r: Vec2) -> bool {
    exists|c, s, cx, sy, sx, cy|
        {
            &&& #[trigger] mul_ensures(c, v.x, cx)
            &&& #[trigger] mul_ensures(s, v.y, sy)
            &&& sub_ensures(cx, sy, r.x)
            &&& #[trigger] mul_ensures(s, v.x, sx)
            &&& #[trigger] mul_ensures(c, v.y, cy)
            &&& add_ensures(sx, cy, r.y)
        }
}

/// Whether `r` is `v` turned as far as `from` has to turn to point where
/// `to` points: it is `v` turned by some rotation, and the rotation is that
/// one.
pub open spec fn is_turned(v: Vec2, from: Vec2, to: Vec2, r: Vec2) -> bool {
    &&& is_rotated(v, r)
    &&& turned_between(
        v.x.to_bits_spec(),
        v.y.to_bits_spec(),
        from.x.to_bits_spec(),
        from.y.to_bits_spec(),
        to.x.to_bits_spec(),
        to.y.to_bits_spec(),
        r.x.to_bits_spec(),
        r.y.to_bits_spec(),
    )
}

/// Whether `r` is `v` turned by a quarter, its abscissa to the ordinate:
/// the abscissa of `r` is the negated ordinate of `v`, and its ordinate the
/// abscissa of `v` negated twice.
pub open spec fn is_quarter_turn(v: Vec2, r: Vec2) -> bool {
    neg_ensures(v.y, r.x) && exists|negated| #[trigger] neg_ensures(v.x, negated) && neg_ensures(
        negated,
        r.y,
    )
}

/// Whether `r` is the position at distance `width` from `pos_to_stay`, or
/// at a third of it, in the direction of `pos_to_update`, as it is
/// computed: the offset from `pos_to_stay` to `pos_to_update` is
/// normalized, multiplied by `width`, divided by three where a third is
/// asked for, and added to `pos_to_stay`.
pub open spec fn is_at_width(
    width: i32,
    third: bool,
    pos_to_stay: Pos2,
    pos_to_update: Pos2,
    r: Pos2,
) -> bool {
    exists|offset: Vec2, direction: Vec2, reach: Vec2|
        {
            &&& #[trigger] is_offset(pos_to_stay, pos_to_update, offset)
            &&& #[trigger] is_normalized(offset, direction)
            &&& #[trigger] is_multiple(direction, width, reach)
            &&& if third {
                exists|short: Vec2| #[trigger] is_fraction(reach, 3, short) && is_sum(pos_to_stay, short, r)
            } else {
                is_sum(pos_to_stay, reach, r)
            }
        }
}

/// Whether `tangent` points from `continuity_point` towards `end_to_stay`
/// and is as long as `length_end` is far from `continuity_point`, as it is
/// computed: the offset towards `end_to_stay` is normalized and multiplied
/// by the length of the offset towards `length_end`.
pub open spec fn is_tangent(
    continuity_point: Pos2,
    end_to_stay: Pos2,
    length_end: Pos2,
    tangent: Vec2,
) -> bool {
    exists|unchanged: Vec2, unit: Vec2, kept: Vec2|
        {
            &&& #[trigger] is_offset(continuity_point, end_to_stay, unchanged)
            &&& #[trigger] is_normalized(unchanged, unit)
            &&& is_offset(continuity_point, length_end, kept)
            &&& #[trigger] is_times_length(unit, kept, tangent)
        }
}

/// Whether `r` is opposite `end_to_stay` as seen from `continuity_point`,
/// as far from it as `length_end` is, as it is computed: the continuity
/// point displaced against the tangent that points towards `end_to_stay`
/// and has that length.
pub open spec fn is_opposite(
    continuity_point: Pos2,
    end_to_stay: Pos2,
    length_end: Pos2,
    r: Pos2,
) -> bool {
    exists|tangent: Vec2|
        #[trigger] is_tangent(continuity_point, end_to_stay, length_end, tangent) && is_difference(
            continuity_point,
            tangent,
            r,
        )
}

/// Whether `r` is opposite `end_to_stay` as seen from `continuity_point`,
/// three times as far from it as `length_end` is.
pub open spec fn is_opposite_tripled(
    continuity_point: Pos2,
    end_to_stay: Pos2,
    length_end: Pos2,
    r: Pos2,
) -> bool {
    exists|tangent: Vec2, long: Vec2|
        {
            &&& #[trigger] is_tangent(continuity_point, end_to_stay, length_end, tangent)
            &&& #[trigger] is_multiple(tangent, 3, long)
            &&& is_difference(continuity_point, long, r)
        }
}

/// Whether `r` is opposite `end_to_stay` as seen from `continuity_point`, a
/// third as far from it as `length_end` is.
pub open spec fn is_opposite_third(
    continuity_point: Pos2,
    end_to_stay: Pos2,
    length_end: Pos2,
    r: Pos2,
) -> bool {
    exists|tangent: Vec2, short: Vec2|
        {
            &&& #[trigger] is_tangent(continuity_point, end_to_stay, length_end, tangent)
            &&& #[trigger] is_fraction(tangent, 3, short)
            &&& is_difference(continuity_point, short, r)
        }
}

/// Whether `r` is where `handle` is carried about `pivot` when an endpoint
/// of its curve goes from `anchor_was` to `anchor_is`, as it is computed:
/// the offset from `pivot` to `handle` is turned as the offset from `pivot`
/// to the endpoint has turned, multiplied by the new length of that offset
/// and divided by its old length, and added to `pivot`.
pub open spec fn is_carried(
    handle: Pos2,
    pivot: Pos2,
    anchor_was: Pos2,
    anchor_is: Pos2,
    r: Pos2,
) -> bool {
    exists|from: Vec2, to: Vec2, offset: Vec2, turned_offset: Vec2, stretched: Vec2, fitted: Vec2|
        {
            &&& #[trigger] is_offset(pivot, anchor_was, from)
            &&& #[trigger] is_offset(pivot, anchor_is, to)
            &&& #[trigger] is_offset(pivot, handle, offset)
            &&& #[trigger] is_turned(offset, from, to, turned_offset)
            &&& #[trigger] is_times_length(turned_offset, to, stretched)
            &&& #[trigger] is_over_length(stretched, from, fitted)
            &&& is_sum(pivot, fitted, r)
        }
}

/// Whether `r` is half-way from `a` to `b`, as it is computed: `a`
/// displaced by half the offset from `a` to `b`.
pub open spec fn is_midway(a: Pos2, b: Pos2, r: Pos2) -> bool {
    exists|offset: Vec2, half: Vec2|
        {
            &&& #[trigger] is_offset(a, b, offset)
            &&& #[trigger] is_fraction(offset, 2, half)
            &&& is_sum(a, half, r)
        }
}

/// Whether `r` is `start` displaced by `along` and then by `aside`.
pub open spec fn is_beside(start: Pos2, along: Vec2, aside: Vec2, r: Pos2) -> bool {
    exists|on_edge: Pos2| #[trigger] is_sum(start, along, on_edge) && is_sum(on_edge, aside, r)
}

/// Whether `near` and `far` are beside the edge from `start` to `end`, at
/// one third and at two thirds of it, as they are computed. The way aside
/// is the offset of the edge turned by a quarter, normalized and multiplied
/// by `distance`; the ways along are the offset divided by three, and the
/// offset multiplied by two and divided by three.
pub open spec fn are_beside_edge(
    start: Pos2,
    end: Pos2,
    distance: i32,
    near: Pos2,
    far: Pos2,
) -> bool {
    exists|diff: Vec2, across: Vec2, unit: Vec2, aside: Vec2, third: Vec2, double: Vec2, two_thirds: Vec2|
        {
            &&& #[trigger] is_offset(start, end, diff)
            &&& #[trigger] is_quarter_turn(diff, across)
            &&& #[trigger] is_normalized(across, unit)
            &&& #[trigger] is_multiple(unit, distance, aside)
            &&& #[trigger] is_fraction(diff, 3, third)
            &&& is_beside(start, third, aside, near)
            &&& #[trigger] is_multiple(diff, 2, double)
            &&& #[trigger] is_fraction(double, 3, two_thirds)
            &&& is_beside(start, two_thirds, aside, far)
        }
}

/// Moves `p` vertically onto the horizontal line through `level`.
pub fn set_height(p: Pos2, level: Pos2) -> (r: Pos2)
    ensures
        r == at_height_of(p, level),
{
    Pos2 { x: p.x, y: level.y }
}

/// Moves `p` horizontally onto the vertical line through `column`.
pub fn set_column(p: Pos2, column: Pos2) -> (r: Pos2)
    ensures
        r == at_column_of(p, column),
{
    Pos2 { x: column.x, y: p.y }
}

/// Calls `==` of `emath::Pos2`, which compares the two abscissas and the two
/// ordinates as floating-point numbers. The contract spells that comparison
/// out on the bit patterns.
#[verifier::external_body]
pub(crate) fn same_place(a: Pos2, b: Pos2) -> (r: bool)
    ensures
        r == coincide(a, b),
{
    a == b
}

/// Calls `Pos2 - Pos2` of `emath`, which subtracts coordinate by
/// coordinate: the displacement that leads from `origin` to `target`. The
/// contract says that much.
#[verifier::external_body]
pub(crate) fn offset_from(origin: Pos2, target: Pos2) -> (r: Vec2)
    ensures
        is_offset(origin, target, r),
{
    target - origin
}

/// Calls `Vec2::normalized` of `emath`, which returns `v` itself where its
/// length is not above zero and `v` divided by its length otherwise. The
/// contract says that the result is `v` or `v` over some number, and that
/// it is what normalizing `v` gives. Which number the length is it does not
/// say, since `emath` takes it with a function of unspecified precision.
#[verifier::external_body]
pub(crate) fn normalized(v: Vec2) -> (r: Vec2)
    ensures
        is_normalized(v, r),
        normalized_from(
            v.x.to_bits_spec(),
            v.y.to_bits_spec(),
            r.x.to_bits_spec(),
            r.y.to_bits_spec(),
        ),
{
    v.normalized()
}

/// Calls the product of a `Vec2` and a number, of `emath`, which multiplies
/// both coordinates by the number, with `Vec2::length` of `model` as the
/// number. The contract says that the result is `v` times some number, and
/// that the number is the length of `model`; which number that is it does
/// not say.
#[verifier::external_body]
pub(crate) fn times_length_of(v: Vec2, model: Vec2) -> (r: Vec2)
    ensures
        is_times_length(v, model, r),
        scaled_by_length(
            v.x.to_bits_spec(),
            v.y.to_bits_spec(),
            model.x.to_bits_spec(),
            model.y.to_bits_spec(),
            r.x.to_bits_spec(),
            r.y.to_bits_spec(),
        ),
{
    v * model.length()
}

/// Calls the quotient of a `Vec2` by a number, of `emath`, which divides
/// both coordinates by the number, with `Vec2::length` of `model` as the
/// number. The contract says that the result is `v` over some number, and
/// that the number is the length of `model`; which number that is it does
/// not say.
#[verifier::external_body]
pub(crate) fn over_length_of(v: Vec2, model: Vec2) -> (r: Vec2)
    ensures
        is_over_length(v, model, r),
        shrunk_by_length(
            v.x.to_bits_spec(),
            v.y.to_bits_spec(),
            model.x.to_bits_spec(),
            model.y.to_bits_spec(),
            r.x.to_bits_spec(),
            r.y.to_bits_spec(),
        ),
{
    v / model.length()
}

/// Calls `Vec2 * Vec2` of `emath`, which multiplies coordinate by
/// coordinate, with `Vec2::splat` of `factor` as the second operand, which
/// has the number that `factor` converts to in both coordinates. The
/// contract says that much.
#[verifier::external_body]
pub(crate) fn times(v: Vec2, factor: i32) -> (r: Vec2)
    ensures
        is_multiple(v, factor, r),
{
    v * Vec2::splat(factor as _)
}

/// Calls `Vec2 / Vec2` of `emath`, which divides coordinate by coordinate,
/// with `Vec2::splat` of `divisor` as the second operand, which has the
/// number that `divisor` converts to in both coordinates. The contract says
/// that much.
#[verifier::external_body]
pub(crate) fn over(v: Vec2, divisor: i32) -> (r: Vec2)
    ensures
        is_fraction(v, divisor, r),
{
    v / Vec2::splat(divisor as _)
}

/// Calls `Rot2::from_angle` of `emath` on `Vec2::angle` of `to` and of
/// `from`, inverts the second rotation with `Rot2::inverse`, and applies the
/// product of the two to `v`: `v` turned as far as `from` has to turn to
/// point where `to` points. The contract says what applying a rotation is,
/// and that the rotation is the one from `from` to `to`; its cosine and sine
/// it does not say, since `emath` takes angles, sines and cosines with
/// functions of unspecified precision.
#[verifier::external_body]
pub(crate) fn turned(v: Vec2, from: Vec2, to: Vec2) -> (r: Vec2)
    ensures
        is_turned(v, from, to, r),
        turned_between(
            v.x.to_bits_spec(),
            v.y.to_bits_spec(),
            from.x.to_bits_spec(),
            from.y.to_bits_spec(),
            to.x.to_bits_spec(),
            to.y.to_bits_spec(),
            r.x.to_bits_spec(),
            r.y.to_bits_spec(),
        ),
{
    (Rot2::from_angle(to.angle()) * Rot2::from_angle(from.angle()).inverse()) * v
}

/// Calls `Vec2::rot90` of `emath`, which returns the ordinate and the
/// negated abscissa, and negates both with `-` of `emath::Vec2`: `v` turned
/// by a quarter, its abscissa to the ordinate. The contract says that much.
#[verifier::external_body]
pub(crate) fn quarter_turned(v: Vec2) -> (r: Vec2)
    ensures
        is_quarter_turn(v, r),
{
    -v.rot90()
}

/// Calls `Pos2 + Vec2` of `emath`, which adds coordinate by coordinate. The
/// contract says that much: each coordinate of the result is a
/// floating-point sum of the two it comes from.
#[verifier::external_body]
pub(crate) fn advanced(p: Pos2, v: Vec2) -> (r: Pos2)
    ensures
        is_sum(p, v, r),
{
    p + v
}

/// Calls `Pos2 - Vec2` of `emath`, which subtracts coordinate by coordinate.
/// The contract says that much.
#[verifier::external_body]
pub(crate) fn retreated(p: Pos2, v: Vec2) -> (r: Pos2)
    ensures
        is_difference(p, v, r),
{
    p - v
}

} // verus!
