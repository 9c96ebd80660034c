//! Points, the canvas rectangle and distances.
//!
//! Lengths and coordinates are whole thousandths of a pixel; [`PIXEL`] is one
//! pixel. Distances between points are rounded down to a whole length, so a
//! measured distance never overstates the true one. Where a whole length is
//! too coarse, a distance is measured in [`FINE`] parts of a length unit,
//! rounded down as well.

use vstd::prelude::*;
use crate::fixed::{
    floor_sqrt,
    isqrt,
    lemma_floor_sqrt_below,
    lemma_floor_sqrt_brackets,
    lemma_floor_sqrt_dominates,
};

verus! {

/// One pixel, as a count of length units.
pub const PIXEL: u32 = 1000;

/// The number of parts that a length unit is split into where a distance is
/// measured finely: `2^31`.
pub const FINE: u64 = 0x8000_0000;

/// A position on the plane.
#[derive(Clone, Copy, Debug, PartialEq, Eq, Structural)]
pub struct Point {
    pub x: i32,
    pub y: i32,
}

/// An axis-aligned rectangle, given by the coordinates of its four edges.
#[derive(Clone, Copy, Debug, PartialEq, Eq, Structural)]
pub struct Rect {
    pub left: i32,
    pub right: i32,
    pub bottom: i32,
    pub top: i32,
}

/// The smaller of two integers.
pub open spec fn min_of(a: int, b: int) -> int {
    if a <= b {
        a
    } else {
        b
    }
}

/// The larger of two integers.
pub open spec fn max_of(a: int, b: int) -> int {
    if a >= b {
        a
    } else {
        b
    }
}

/// The squared Euclidean distance between two points.
pub open spec fn dist2(a: Point, b: Point) -> nat {
    ((a.x - b.x) * (a.x - b.x) + (a.y - b.y) * (a.y - b.y)) as nat
}

/// The Euclidean distance between two points, rounded down.
pub open spec fn distance_of(a: Point, b: Point) -> nat {
    floor_sqrt(dist2(a, b))
}

/// The Euclidean distance between two points in parts of `1 / FINE` of a
/// length unit, rounded down: the whole number of such parts that fits into
/// the true distance.
pub open spec fn fine_distance_of(a: Point, b: Point) -> nat {
    floor_sqrt(dist2(a, b) * (FINE as nat) * (FINE as nat))
}

/// The signed distance from `point` to the nearest edge of `canvas`: positive
/// inside, negative once the point lies beyond an edge.
pub open spec fn edge_distance_of(canvas: Rect, point: Point) -> int {
    min_of(
        min_of(point.x - canvas.left, canvas.right - point.x),
        min_of(canvas.top - point.y, point.y - canvas.bottom),
    )
}

/// Whether `point` lies on the canvas, edges included.
pub open spec fn on_canvas(canvas: Rect, point: Point) -> bool {
    canvas.left <= point.x <= canvas.right && canvas.bottom <= point.y <= canvas.top
}

/// A point is on the canvas exactly when its edge distance is not negative.
pub proof fn lemma_on_canvas_edge_distance(canvas: Rect, point: Point)
    ensures
        on_canvas(canvas, point) <==> edge_distance_of(canvas, point) >= 0,
{
}

/// Squared distances between points stay below `2^65`.
pub proof fn lemma_dist2_bound(a: Point, b: Point)
    ensures
        dist2(a, b) == (a.x - b.x) * (a.x - b.x) + (a.y - b.y) * (a.y - b.y),
        dist2(a, b) <= 2 * (0xffff_ffff * 0xffff_ffff),
        distance_of(a, b) < 0x2_0000_0000,
        dist2(a, b) == dist2(b, a),
        a == b <==> dist2(a, b) == 0,
{
    let dx: int = a.x - b.x;
    let dy: int = a.y - b.y;
    assert(0 <= dx * dx <= 0xffff_ffff * 0xffff_ffff) by (nonlinear_arith)
        requires
            -0xffff_ffff <= dx <= 0xffff_ffff,
    ;
    assert(0 <= dy * dy <= 0xffff_ffff * 0xffff_ffff) by (nonlinear_arith)
        requires
            -0xffff_ffff <= dy <= 0xffff_ffff,
    ;
    assert(dx * dx == (b.x - a.x) * (b.x - a.x)) by (nonlinear_arith)
        requires
            dx == a.x - b.x,
    ;
    assert(dy * dy == (b.y - a.y) * (b.y - a.y)) by (nonlinear_arith)
        requires
            dy == a.y - b.y,
    ;
    assert(dx != 0 ==> dx * dx > 0) by (nonlinear_arith);
    assert(dy != 0 ==> dy * dy > 0) by (nonlinear_arith);
    assert(dx == 0 ==> dx * dx == 0) by (nonlinear_arith);
    assert(dy == 0 ==> dy * dy == 0) by (nonlinear_arith);
    assert(0x2_0000_0000int * 0x2_0000_0000int > 2 * (0xffff_ffff * 0xffff_ffff))
        by (nonlinear_arith);
    lemma_floor_sqrt_below(dist2(a, b), 0x2_0000_0000);
}

/// The fine distance brackets the true one: its square is at most the
/// squared distance in fine parts, and the next square is beyond it. It is
/// never less than the whole distance in fine parts, and two distinct points
/// are at least one whole length unit apart.
pub proof fn lemma_fine_distance(a: Point, b: Point)
    ensures
        fine_distance_of(a, b) * fine_distance_of(a, b) <= dist2(a, b) * (FINE * FINE),
        dist2(a, b) * (FINE * FINE) < (fine_distance_of(a, b) + 1) * (fine_distance_of(a, b) + 1),
        distance_of(a, b) * FINE <= fine_distance_of(a, b),
        a != b ==> fine_distance_of(a, b) >= FINE,
        fine_distance_of(a, b) < 0x1_0000_0000_0000_0000,
{
    lemma_dist2_bound(a, b);
    let square: nat = dist2(a, b);
    let fine_square: nat = square * (FINE as nat) * (FINE as nat);
    assert(fine_square == square * (FINE * FINE)) by (nonlinear_arith)
        requires
            fine_square == square * (FINE as nat) * (FINE as nat),
    ;
    lemma_floor_sqrt_brackets(fine_square);
    lemma_floor_sqrt_brackets(square);
    let whole: nat = distance_of(a, b);
    assert((whole * FINE) * (whole * FINE) <= fine_square) by (nonlinear_arith)
        requires
            whole * whole <= square,
            fine_square == square * (FINE * FINE),
    ;
    lemma_floor_sqrt_dominates(fine_square, whole * (FINE as nat));
    if a != b {
        assert((FINE as nat) * (FINE as nat) <= fine_square) by (nonlinear_arith)
            requires
                square >= 1,
                fine_square == square * (FINE * FINE),
        ;
        lemma_floor_sqrt_dominates(fine_square, FINE as nat);
    }
    assert(fine_square < 0x1_0000_0000_0000_0000 * 0x1_0000_0000_0000_0000) by (nonlinear_arith)
        requires
            square <= 2 * (0xffff_ffff * 0xffff_ffff),
            fine_square == square * (FINE * FINE),
            FINE == 0x8000_0000,
    ;
    lemma_floor_sqrt_below(fine_square, 0x1_0000_0000_0000_0000);
}

/// The size of a coordinate difference.
fn span(from: i32, to: i32) -> (width: u64)
    ensures
        width == if to >= from { to - from } else { from - to },
        width <= 0xffff_ffff,
{
    let difference: i64 = (to as i64) - (from as i64);
    if difference >= 0 {
        difference as u64
    } else {
        (-difference) as u64
    }
}

/// The squared Euclidean distance between two points.
pub fn squared_distance(a: Point, b: Point) -> (d2: u128)
    ensures
        d2 == dist2(a, b),
{
    let width: u64 = span(a.x, b.x);
    let height: u64 = span(a.y, b.y);
    proof {
        lemma_dist2_bound(a, b);
        assert(width * width == (a.x - b.x) * (a.x - b.x)) by (nonlinear_arith)
            requires
                width == a.x - b.x || width == b.x - a.x,
        ;
        assert(height * height == (a.y - b.y) * (a.y - b.y)) by (nonlinear_arith)
            requires
                height == a.y - b.y || height == b.y - a.y,
        ;
        assert(0 <= width * width <= 0xffff_ffff * 0xffff_ffff) by (nonlinear_arith)
            requires
                0 <= width <= 0xffff_ffff,
        ;
        assert(0 <= height * height <= 0xffff_ffff * 0xffff_ffff) by (nonlinear_arith)
            requires
                0 <= height <= 0xffff_ffff,
        ;
    }
    (width as u128) * (width as u128) + (height as u128) * (height as u128)
}

/// The Euclidean distance between two points, rounded down to a whole length.
pub fn distance(a: Point, b: Point) -> (d: u64)
    ensures
        d == distance_of(a, b),
        d < 0x2_0000_0000,
{
    proof {
        lemma_dist2_bound(a, b);
    }
    isqrt(squared_distance(a, b))
}

/// The Euclidean distance between two points in parts of `1 / FINE` of a
/// length unit, rounded down.
pub fn fine_distance(a: Point, b: Point) -> (d: u64)
    ensures
        d == fine_distance_of(a, b),
{
    let square: u128 = squared_distance(a, b);
    proof {
        lemma_dist2_bound(a, b);
        assert(square * (FINE * FINE) <= 2 * (0xffff_ffff * 0xffff_ffff) * (0x8000_0000
            * 0x8000_0000)) by (nonlinear_arith)
            requires
                0 <= square <= 2 * (0xffff_ffff * 0xffff_ffff),
                FINE == 0x8000_0000,
        ;
        assert(square * (FINE as nat) * (FINE as nat) == square * (FINE * FINE))
            by (nonlinear_arith);
    }
    isqrt(square * ((FINE as u128) * (FINE as u128)))
}

/// The signed distance from `point` to the nearest edge of `canvas`.
pub fn edge_distance(canvas: Rect, point: Point) -> (d: i64)
    ensures
        d == edge_distance_of(canvas, point),
{
    let left: i64 = (point.x as i64) - (canvas.left as i64);
    let right: i64 = (canvas.right as i64) - (point.x as i64);
    let top: i64 = (canvas.top as i64) - (point.y as i64);
    let bottom: i64 = (point.y as i64) - (canvas.bottom as i64);
    let sideways: i64 = if left <= right { left } else { right };
    let upright: i64 = if top <= bottom { top } else { bottom };
    if sideways <= upright {
        sideways
    } else {
        upright
    }
}

} // verus!
