//! Pushing overlapping blooms apart, one pair at a time.
//!
//! One pass visits every pair of blooms once, in the order of their places
//! in the garden, and moves the two of a pair apart when they are closer
//! than their radii and the margin allow. A pass does not promise a garden
//! free of overlaps: a push may drive a bloom into a third one. Passes are
//! meant to be repeated, one per tick.
//!
//! Positions are whole numbers, so a push cannot be exact. It is rounded
//! away from the other bloom: a corrected pair never overlaps, and ends up
//! farther apart than it has to by no more than [`push_slack`], a few length
//! units. The direction of a push is taken from the distance between the
//! centres measured in `FINE` parts of a length unit, so that centres close
//! to each other are pushed as truly as distant ones.

use vstd::prelude::*;
use crate::fixed::{
    ceil_div,
    lemma_floor_sqrt_below,
    lemma_floor_sqrt_brackets,
    lemma_floor_sqrt_dominates,
};
use crate::flower::Flower;
use crate::geometry::{
    dist2,
    distance,
    distance_of,
    fine_distance,
    fine_distance_of,
    lemma_dist2_bound,
    lemma_fine_distance,
    Point,
    FINE,
};

verus! {

/// A point one length unit beside `point`: to the right, or to the left at
/// the right end of the coordinate range.
pub open spec fn nudged(point: Point) -> Point {
    Point {
        x: if point.x < i32::MAX {
            (point.x + 1) as i32
        } else {
            (point.x - 1) as i32
        },
        y: point.y,
    }
}

/// The distance that the centres of two blooms have to keep: both radii and
/// the margin.
pub open spec fn clearance_of(a: Flower, b: Flower, margin: nat) -> nat {
    a.radius() + b.radius() + margin
}

/// How far two blooms reach into each other, the margin counted as part of
/// them: positive when they are too close. The distance between the centres
/// is taken rounded down, so an overlap is never understated.
pub open spec fn overlap_of(a: Flower, b: Flower, margin: nat) -> int {
    clearance_of(a, b, margin) - distance_of(a.pos, b.pos)
}

/// The first bloom of a pair as its correction takes it: moved one length
/// unit aside where the two centres coincide.
pub open spec fn nudged_first(a: Flower, b: Flower) -> Flower {
    if a.pos == b.pos {
        Flower { pos: nudged(a.pos), ..a }
    } else {
        a
    }
}

/// The size of the share of a push of length `push` that falls on one axis,
/// where the two centres are `size` apart on that axis and `fine_apart` fine
/// parts apart in all: `size * push` divided by the distance, rounded up.
pub open spec fn share_of(size: int, push: int, fine_apart: int) -> int {
    ceil_div(size * push * FINE, fine_apart)
}

/// The share of a push of length `push` that falls on one axis, where the
/// two centres are `component` apart on that axis and `fine_apart` fine
/// parts apart in all. The share has the sign of `component`, and its size
/// is rounded up.
pub open spec fn push_along(component: int, push: int, fine_apart: int) -> int {
    if component >= 0 {
        share_of(component, push, fine_apart)
    } else {
        -share_of(-component, push, fine_apart)
    }
}

/// A coordinate held within the range of positions.
pub open spec fn clamped(value: int) -> i32 {
    if value < i32::MIN {
        i32::MIN
    } else if value > i32::MAX {
        i32::MAX
    } else {
        value as i32
    }
}

/// `point` moved by `push` straight away from `other`, which is
/// `fine_apart` fine parts away. A move that would leave the coordinate
/// range stops at its end.
pub open spec fn pushed(point: Point, other: Point, push: int, fine_apart: int) -> Point {
    Point {
        x: clamped(point.x + push_along(point.x - other.x, push, fine_apart)),
        y: clamped(point.y + push_along(point.y - other.y, push, fine_apart)),
    }
}

/// The two blooms of a pair after their correction. Where the centres
/// coincide the first is nudged aside. Then, if the two overlap, each moves
/// half the overlap straight away from the other; of an odd overlap the
/// second takes the larger half. What a move comes to on each axis is
/// rounded up to a whole length unit.
pub open spec fn separated(a: Flower, b: Flower, margin: nat) -> (Flower, Flower) {
    let first = nudged_first(a, b);
    let fine_apart = fine_distance_of(first.pos, b.pos) as int;
    let overlap = overlap_of(first, b, margin);
    if overlap > 0 {
        (
            Flower { pos: pushed(first.pos, b.pos, overlap / 2, fine_apart), ..first },
            Flower { pos: pushed(b.pos, first.pos, overlap - overlap / 2, fine_apart), ..b },
        )
    } else {
        (first, b)
    }
}

/// The most by which the centres of a corrected pair end up farther apart
/// than their clearance: four length units, and one more for every `FINE`
/// length units of clearance.
pub open spec fn push_slack(clearance: nat) -> nat {
    4 + clearance / (FINE as nat)
}

/// Whether a move of `point` by `push` away from `other` stays within the
/// coordinate range.
pub open spec fn pushed_freely(point: Point, other: Point, push: int, fine_apart: int) -> bool {
    &&& i32::MIN <= point.x + push_along(point.x - other.x, push, fine_apart) <= i32::MAX
    &&& i32::MIN <= point.y + push_along(point.y - other.y, push, fine_apart) <= i32::MAX
}

/// Whether the correction of a pair moves both blooms as far as it means
/// to: neither move is stopped at the end of the coordinate range.
pub open spec fn corrected_freely(a: Flower, b: Flower, margin: nat) -> bool {
    let first = nudged_first(a, b);
    let fine_apart = fine_distance_of(first.pos, b.pos) as int;
    let overlap = overlap_of(first, b, margin);
    overlap > 0 ==> pushed_freely(first.pos, b.pos, overlap / 2, fine_apart) && pushed_freely(
        b.pos,
        first.pos,
        overlap - overlap / 2,
        fine_apart,
    )
}

/// What a correction that moved both blooms freely has made of the pair
/// `a` and `b`, now `after`.
///
/// - The two have distinct centres and do not overlap.
/// - If they overlapped, they were not pushed too far: their centres are
///   farther apart than their clearance by [`push_slack`] at most.
/// - If their centres were distinct, the two moved the same way in opposite
///   directions: on each axis the two moves cancel but for one length unit,
///   so the middle between the centres stayed where it was within half a
///   length unit.
pub open spec fn cleared(a: Flower, b: Flower, margin: nat, after: (Flower, Flower)) -> bool {
    &&& after.0.pos != after.1.pos
    &&& overlap_of(after.0, after.1, margin) <= 0
    &&& overlap_of(nudged_first(a, b), b, margin) > 0 ==> distance_of(after.0.pos, after.1.pos)
        <= clearance_of(a, b, margin) + push_slack(clearance_of(a, b, margin))
    &&& a.pos != b.pos ==> {
        &&& -1 <= (after.0.pos.x + after.1.pos.x) - (a.pos.x + b.pos.x) <= 1
        &&& -1 <= (after.0.pos.y + after.1.pos.y) - (a.pos.y + b.pos.y) <= 1
    }
}

/// The garden after the correction of the pair at places `i` and `j`.
pub open spec fn relax_pair(garden: Seq<Flower>, i: int, j: int, margin: nat) -> Seq<Flower> {
    let pair = separated(garden[i], garden[j], margin);
    garden.update(i, pair.0).update(j, pair.1)
}

/// The garden after the corrections of the pair `(i, j)` and of all pairs
/// after it: first the remaining partners of `i` in rising order, then the
/// pairs of each later bloom.
pub open spec fn relax_from(garden: Seq<Flower>, i: int, j: int, margin: nat) -> Seq<Flower>
    decreases garden.len() - i, garden.len() - j,
{
    if i < 0 || j <= i || i + 1 >= garden.len() {
        garden
    } else if j >= garden.len() {
        relax_from(garden, i + 1, i + 2, margin)
    } else {
        relax_from(relax_pair(garden, i, j, margin), i, j + 1, margin)
    }
}

/// The garden after one pass over all pairs.
pub open spec fn relaxed(garden: Seq<Flower>, margin: nat) -> Seq<Flower> {
    relax_from(garden, 0, 1, margin)
}

/// Whether no two blooms of the garden share a centre or overlap.
pub open spec fn settled(garden: Seq<Flower>, margin: nat) -> bool {
    forall|i: int, j: int|
        0 <= i < j < garden.len() ==> (#[trigger] garden[i]).pos != (#[trigger] garden[j]).pos
            && overlap_of(garden[i], garden[j], margin) <= 0
}

/// Whether `after` holds the blooms of `before` in the same places, with
/// nothing changed but their positions.
pub open spec fn moved_only(before: Seq<Flower>, after: Seq<Flower>) -> bool {
    &&& after.len() == before.len()
    &&& forall|k: int|
        0 <= k < before.len() ==> (#[trigger] after[k]) == (Flower { pos: after[k].pos, ..before[k] })
}

/// Two distinct points are at least one length unit apart, and a nudged
/// point is distinct from the point it started from.
pub proof fn lemma_distinct_points_apart(a: Point, b: Point)
    ensures
        a != b ==> distance_of(a, b) >= 1,
        nudged(a) != a,
{
    lemma_dist2_bound(a, b);
    if a != b {
        assert(1 * 1 <= dist2(a, b)) by (nonlinear_arith)
            requires
                dist2(a, b) >= 1,
        ;
        lemma_floor_sqrt_dominates(dist2(a, b), 1);
    }
}

/// A correction changes nothing but the positions of the two blooms, and
/// changes nothing at all for a pair with distinct centres and no overlap.
pub proof fn lemma_separated_keeps_blooms(a: Flower, b: Flower, margin: nat)
    ensures
        separated(a, b, margin).0 == (Flower { pos: separated(a, b, margin).0.pos, ..a }),
        separated(a, b, margin).1 == (Flower { pos: separated(a, b, margin).1.pos, ..b }),
        a.pos != b.pos && overlap_of(a, b, margin) <= 0 ==> separated(a, b, margin) == (a, b),
{
}

/// Rounding a quotient up never falls short of the dividend, and exceeds it
/// by less than the divisor.
proof fn lemma_ceil_div_covers(dividend: int, divisor: int)
    requires
        dividend >= 0,
        divisor >= 1,
    ensures
        dividend <= ceil_div(dividend, divisor) * divisor <= dividend + divisor - 1,
        ceil_div(dividend, divisor) >= 0,
        dividend == 0 ==> ceil_div(dividend, divisor) == 0,
{
    let padded: int = dividend + divisor - 1;
    assert(padded == divisor * (padded / divisor) + padded % divisor && 0 <= padded % divisor
        < divisor) by (nonlinear_arith)
        requires
            divisor >= 1,
    ;
    assert((padded / divisor) * divisor == divisor * (padded / divisor)) by (nonlinear_arith);
    assert(padded / divisor >= 0) by (nonlinear_arith)
        requires
            padded >= 0,
            divisor >= 1,
    ;
    if dividend == 0 {
        assert(padded / divisor == 0) by (nonlinear_arith)
            requires
                0 <= padded < divisor,
        ;
    }
}

/// A dividend that grows by at most the divisor raises the quotient, rounded
/// up, by at most one.
proof fn lemma_ceil_div_steps(small: int, large: int, divisor: int)
    requires
        0 <= small <= large <= small + divisor,
        divisor >= 1,
    ensures
        ceil_div(small, divisor) <= ceil_div(large, divisor) <= ceil_div(small, divisor) + 1,
{
    lemma_ceil_div_covers(small, divisor);
    lemma_ceil_div_covers(large, divisor);
    let low: int = ceil_div(small, divisor);
    let high: int = ceil_div(large, divisor);
    assert(low <= high <= low + 1) by (nonlinear_arith)
        requires
            divisor >= 1,
            small <= low * divisor <= small + divisor - 1,
            large <= high * divisor <= large + divisor - 1,
            small <= large <= small + divisor,
    ;
}

/// On one axis: what two pushes, of `first` for the bloom at `from` and of
/// `second` for the bloom at `other`, make of the gap between the two. The
/// gap keeps its sign and widens by the two shares, each of which is the
/// exact share rounded up. Where the pushes differ by at most one and the
/// gap is no wider than the distance, the two moves cancel but for one
/// length unit.
proof fn lemma_axis_spreads(from: int, other: int, first: int, second: int, fine_apart: int)
    requires
        fine_apart >= 1,
        first >= 0,
        second >= 0,
    ensures
        ({
            let gap = other - from;
            let size = if gap >= 0 {
                gap
            } else {
                -gap
            };
            let to_other = push_along(other - from, second, fine_apart);
            let to_from = push_along(from - other, first, fine_apart);
            let spread = (other + to_other) - (from + to_from);
            let wide = size + share_of(size, first, fine_apart) + share_of(
                size,
                second,
                fine_apart,
            );
            &&& wide >= size
            &&& gap >= 0 ==> spread == wide
            &&& gap < 0 ==> spread == -wide
            &&& wide * fine_apart >= size * (fine_apart + (first + second) * FINE)
            &&& wide * fine_apart <= size * (fine_apart + (first + second) * FINE) + 2 * (
            fine_apart - 1)
            &&& 0 <= second - first <= 1 && size * FINE <= fine_apart ==> -1 <= to_other + to_from
                <= 1
        }),
{
    let gap: int = other - from;
    let size: int = if gap >= 0 {
        gap
    } else {
        -gap
    };
    let scaled_first: int = size * first * FINE;
    let scaled_second: int = size * second * FINE;
    assert(scaled_first >= 0 && scaled_second >= 0) by (nonlinear_arith)
        requires
            size >= 0,
            first >= 0,
            second >= 0,
            scaled_first == size * first * FINE,
            scaled_second == size * second * FINE,
    ;
    lemma_ceil_div_covers(scaled_first, fine_apart);
    lemma_ceil_div_covers(scaled_second, fine_apart);
    let step_first: int = share_of(size, first, fine_apart);
    let step_second: int = share_of(size, second, fine_apart);
    let to_other: int = push_along(other - from, second, fine_apart);
    let to_from: int = push_along(from - other, first, fine_apart);
    if gap > 0 {
        assert(to_other == step_second);
        assert(-(from - other) == size);
        assert(to_from == -step_first);
    } else if gap < 0 {
        assert(-(other - from) == size);
        assert(to_other == -step_second);
        assert(to_from == step_first);
    } else {
        assert(scaled_first == 0 && scaled_second == 0) by (nonlinear_arith)
            requires
                size == 0,
                scaled_first == size * first * FINE,
                scaled_second == size * second * FINE,
        ;
        assert(to_other == 0 && to_from == 0);
    }
    let wide: int = size + step_first + step_second;
    let stretch: int = fine_apart + (first + second) * FINE;
    assert(size * stretch == size * fine_apart + scaled_first + scaled_second)
        by (nonlinear_arith)
        requires
            stretch == fine_apart + (first + second) * FINE,
            scaled_first == size * first * FINE,
            scaled_second == size * second * FINE,
    ;
    assert(wide * fine_apart == size * fine_apart + step_first * fine_apart + step_second
        * fine_apart) by (nonlinear_arith)
        requires
            wide == size + step_first + step_second,
    ;
    if 0 <= second - first <= 1 && size * FINE <= fine_apart {
        assert(scaled_first <= scaled_second <= scaled_first + fine_apart) by (nonlinear_arith)
            requires
                0 <= second - first <= 1,
                0 <= size * FINE <= fine_apart,
                size >= 0,
                first >= 0,
                scaled_first == size * first * FINE,
                scaled_second == size * second * FINE,
        ;
        lemma_ceil_div_steps(scaled_first, scaled_second, fine_apart);
    }
}

/// The square of a stretch, multiplied out.
proof fn lemma_stretch_square(square: int, fine: int, push: int, scale: int)
    ensures
        square * ((fine + push * scale) * (fine + push * scale)) == square * (fine * fine) + 2 * ((
        push * fine) * (square * scale)) + (push * push) * (square * (scale * scale)),
{
    let added: int = push * scale;
    let stretch: int = fine + added;
    let plain: int = fine * fine;
    let mixed: int = fine * added;
    let pure: int = added * added;
    assert(stretch * stretch == plain + 2 * mixed + pure) by (nonlinear_arith)
        requires
            stretch == fine + added,
            plain == fine * fine,
            mixed == fine * added,
            pure == added * added,
    ;
    assert(square * (plain + 2 * mixed + pure) == square * plain + 2 * (square * mixed) + square
        * pure) by (nonlinear_arith);
    let leg: int = push * fine;
    assert(mixed == leg * scale) by (nonlinear_arith)
        requires
            mixed == fine * added,
            added == push * scale,
            leg == push * fine,
    ;
    assert(square * (leg * scale) == leg * (square * scale)) by (nonlinear_arith);
    let twice: int = push * push;
    let grid: int = scale * scale;
    assert(pure == twice * grid) by (nonlinear_arith)
        requires
            pure == added * added,
            added == push * scale,
            twice == push * push,
            grid == scale * scale,
    ;
    assert(square * (twice * grid) == twice * (square * grid)) by (nonlinear_arith);
}

/// Stretching a vector of length `√square` by the factor
/// `(fine + push * FINE) / fine`, each component rounded up or more, gives a
/// vector at least `whole + push` long, where `whole` and `fine` are the
/// length rounded down, in length units and in fine parts.
proof fn lemma_stretch_reaches(
    size_x: int,
    size_y: int,
    whole: int,
    fine: int,
    push: int,
    wide_x: int,
    wide_y: int,
)
    requires
        size_x >= 0,
        size_y >= 0,
        whole >= 0,
        fine >= 1,
        push >= 0,
        whole * whole <= size_x * size_x + size_y * size_y,
        fine * fine <= (size_x * size_x + size_y * size_y) * (FINE * FINE),
        wide_x >= 0,
        wide_y >= 0,
        wide_x * fine >= size_x * (fine + push * FINE),
        wide_y * fine >= size_y * (fine + push * FINE),
    ensures
        wide_x * wide_x + wide_y * wide_y >= (whole + push) * (whole + push),
{
    let scale: int = FINE as int;
    let square: int = size_x * size_x + size_y * size_y;
    let stretch: int = fine + push * scale;
    let found: int = wide_x * wide_x + wide_y * wide_y;
    assert(stretch >= 0 && square >= 0) by (nonlinear_arith)
        requires
            stretch == fine + push * scale,
            fine >= 1,
            push >= 0,
            scale >= 0,
            square == size_x * size_x + size_y * size_y,
    ;
    assert((wide_x * wide_x) * (fine * fine) >= (size_x * size_x) * (stretch * stretch))
        by (nonlinear_arith)
        requires
            wide_x * fine >= size_x * stretch,
            size_x >= 0,
            stretch >= 0,
    ;
    assert((wide_y * wide_y) * (fine * fine) >= (size_y * size_y) * (stretch * stretch))
        by (nonlinear_arith)
        requires
            wide_y * fine >= size_y * stretch,
            size_y >= 0,
            stretch >= 0,
    ;
    assert(found * (fine * fine) >= square * (stretch * stretch)) by (nonlinear_arith)
        requires
            found == wide_x * wide_x + wide_y * wide_y,
            square == size_x * size_x + size_y * size_y,
            (wide_x * wide_x) * (fine * fine) >= (size_x * size_x) * (stretch * stretch),
            (wide_y * wide_y) * (fine * fine) >= (size_y * size_y) * (stretch * stretch),
    ;
    // whole * fine <= square * scale, as the squares are so ordered
    let low: int = whole * fine;
    let high: int = square * scale;
    assert(low * low <= high * high) by (nonlinear_arith)
        requires
            low == whole * fine,
            high == square * scale,
            0 <= whole * whole <= square,
            0 <= fine * fine <= square * (scale * scale),
    ;
    assert(low <= high) by (nonlinear_arith)
        requires
            low * low <= high * high,
            low >= 0,
            high >= 0,
    ;
    let first_term: int = (whole * whole) * (fine * fine);
    let cross_term: int = (push * fine) * low;
    let last_term: int = (push * push) * (fine * fine);
    assert(first_term <= square * (fine * fine)) by (nonlinear_arith)
        requires
            first_term == (whole * whole) * (fine * fine),
            whole * whole <= square,
    ;
    assert(cross_term <= (push * fine) * high) by (nonlinear_arith)
        requires
            cross_term == (push * fine) * low,
            low <= high,
            push >= 0,
            fine >= 0,
    ;
    assert(last_term <= (push * push) * (square * (scale * scale))) by (nonlinear_arith)
        requires
            last_term == (push * push) * (fine * fine),
            fine * fine <= square * (scale * scale),
    ;
    assert(((whole + push) * (whole + push)) * (fine * fine) == first_term + 2 * cross_term
        + last_term) by (nonlinear_arith)
        requires
            first_term == (whole * whole) * (fine * fine),
            cross_term == (push * fine) * low,
            low == whole * fine,
            last_term == (push * push) * (fine * fine),
    ;
    lemma_stretch_square(square, fine, push, scale);
    assert(square * (stretch * stretch) == square * (fine * fine) + 2 * ((push * fine) * high)
        + (push * push) * (square * (scale * scale)));
    assert(found >= (whole + push) * (whole + push)) by (nonlinear_arith)
        requires
            found * (fine * fine) >= ((whole + push) * (whole + push)) * (fine * fine),
            fine >= 1,
    ;
}

/// Stretching a vector of length `√square` by the factor
/// `(fine + push * FINE) / fine`, each component rounded up by less than
/// two, gives a vector less than `whole + push + extra + 5` long, where
/// `extra` counts the whole `FINE`s in `push`.
proof fn lemma_stretch_stays(
    size_x: int,
    size_y: int,
    whole: int,
    fine: int,
    push: int,
    extra: int,
    wide_x: int,
    wide_y: int,
)
    requires
        size_x >= 0,
        size_y >= 0,
        size_x * size_x + size_y * size_y >= 1,
        whole >= 0,
        size_x * size_x + size_y * size_y < (whole + 1) * (whole + 1),
        fine >= FINE,
        (size_x * size_x + size_y * size_y) * (FINE * FINE) < (fine + 1) * (fine + 1),
        push >= 0,
        extra >= 0,
        push < (extra + 1) * FINE,
        wide_x >= 0,
        wide_y >= 0,
        wide_x * fine <= size_x * (fine + push * FINE) + 2 * (fine - 1),
        wide_y * fine <= size_y * (fine + push * FINE) + 2 * (fine - 1),
    ensures
        wide_x * wide_x + wide_y * wide_y < (whole + push + extra + 5) * (whole + push + extra + 5),
{
    let scale: int = FINE as int;
    let square: int = size_x * size_x + size_y * size_y;
    let stretch: int = fine + push * scale;
    let found: int = wide_x * wide_x + wide_y * wide_y;
    let bound: int = whole + push + extra + 2;
    let less_x: int = if wide_x >= 2 {
        wide_x - 2
    } else {
        0
    };
    let less_y: int = if wide_y >= 2 {
        wide_y - 2
    } else {
        0
    };
    let less: int = less_x * less_x + less_y * less_y;
    assert(stretch >= 0) by (nonlinear_arith)
        requires
            stretch == fine + push * scale,
            fine >= 1,
            push >= 0,
            scale >= 0,
    ;
    assert(less_x * fine <= size_x * stretch) by (nonlinear_arith)
        requires
            wide_x * fine <= size_x * stretch + 2 * (fine - 1),
            less_x == wide_x - 2 || less_x == 0,
            size_x >= 0,
            stretch >= 0,
    ;
    assert(less_y * fine <= size_y * stretch) by (nonlinear_arith)
        requires
            wide_y * fine <= size_y * stretch + 2 * (fine - 1),
            less_y == wide_y - 2 || less_y == 0,
            size_y >= 0,
            stretch >= 0,
    ;
    assert((less_x * less_x) * (fine * fine) <= (size_x * size_x) * (stretch * stretch))
        by (nonlinear_arith)
        requires
            less_x * fine <= size_x * stretch,
            less_x >= 0,
            fine >= 0,
    ;
    assert((less_y * less_y) * (fine * fine) <= (size_y * size_y) * (stretch * stretch))
        by (nonlinear_arith)
        requires
            less_y * fine <= size_y * stretch,
            less_y >= 0,
            fine >= 0,
    ;
    assert(less * (fine * fine) <= square * (stretch * stretch)) by (nonlinear_arith)
        requires
            less == less_x * less_x + less_y * less_y,
            square == size_x * size_x + size_y * size_y,
            (less_x * less_x) * (fine * fine) <= (size_x * size_x) * (stretch * stretch),
            (less_y * less_y) * (fine * fine) <= (size_y * size_y) * (stretch * stretch),
    ;
    // square * scale < (whole + 1) * (fine + 1), as the squares are so ordered
    let low: int = square * scale;
    let high: int = (whole + 1) * (fine + 1);
    assert(low * low < high * high) by (nonlinear_arith)
        requires
            low == square * scale,
            high == (whole + 1) * (fine + 1),
            1 <= square < (whole + 1) * (whole + 1),
            0 <= square * (scale * scale) < (fine + 1) * (fine + 1),
    ;
    assert(low < high) by (nonlinear_arith)
        requires
            low * low < high * high,
            low >= 0,
            high >= 0,
    ;
    let reach: int = (whole + 1) * fine + push * (fine + 1);
    assert(square * (fine * fine) < ((whole + 1) * (whole + 1)) * (fine * fine))
        by (nonlinear_arith)
        requires
            square < (whole + 1) * (whole + 1),
            fine >= 1,
    ;
    assert((push * fine) * low <= (push * fine) * high) by (nonlinear_arith)
        requires
            low < high,
            push >= 0,
            fine >= 0,
    ;
    assert((push * push) * (square * (scale * scale)) <= (push * push) * ((fine + 1) * (fine + 1)))
        by (nonlinear_arith)
        requires
            square * (scale * scale) < (fine + 1) * (fine + 1),
    ;
    lemma_stretch_square(square, fine, push, scale);
    assert(square * (stretch * stretch) == square * (fine * fine) + 2 * ((push * fine) * low)
        + (push * push) * (square * (scale * scale)));
    assert(reach * reach == ((whole + 1) * (whole + 1)) * (fine * fine) + 2 * ((push * fine)
        * high) + (push * push) * ((fine + 1) * (fine + 1))) by (nonlinear_arith)
        requires
            reach == (whole + 1) * fine + push * (fine + 1),
            high == (whole + 1) * (fine + 1),
    ;
    assert(0 <= reach < bound * fine) by (nonlinear_arith)
        requires
            reach == (whole + 1) * fine + push * (fine + 1),
            bound == whole + push + extra + 2,
            push < (extra + 1) * scale,
            scale <= fine,
            whole >= 0,
            push >= 0,
            extra >= 0,
    ;
    assert(reach * reach < (bound * fine) * (bound * fine)) by (nonlinear_arith)
        requires
            0 <= reach < bound * fine,
    ;
    assert((bound * fine) * (bound * fine) == (bound * bound) * (fine * fine))
        by (nonlinear_arith);
    assert(less < bound * bound) by (nonlinear_arith)
        requires
            less * (fine * fine) < (bound * bound) * (fine * fine),
            fine >= 1,
    ;
    let both: int = less_x + less_y;
    assert(both * both <= 2 * less) by (nonlinear_arith)
        requires
            both == less_x + less_y,
            less == less_x * less_x + less_y * less_y,
    ;
    assert(2 * both < 3 * bound) by (nonlinear_arith)
        requires
            both * both < 2 * (bound * bound),
            both >= 0,
            bound >= 0,
    ;
    assert(found <= less + 4 * both + 8) by (nonlinear_arith)
        requires
            found == wide_x * wide_x + wide_y * wide_y,
            less == less_x * less_x + less_y * less_y,
            both == less_x + less_y,
            0 <= wide_x <= less_x + 2,
            0 <= wide_y <= less_y + 2,
    ;
    assert(found < (bound + 3) * (bound + 3)) by (nonlinear_arith)
        requires
            found <= less + 4 * both + 8,
            less < bound * bound,
            2 * both < 3 * bound,
    ;
}

/// The correction of a pair clears it, unless a move was stopped at the end
/// of the coordinate range: the two do not overlap afterwards, were not
/// pushed too far, and kept their middle.
pub proof fn lemma_separated_clears(a: Flower, b: Flower, margin: nat)
    requires
        corrected_freely(a, b, margin),
    ensures
        cleared(a, b, margin, separated(a, b, margin)),
{
    let first = nudged_first(a, b);
    lemma_distinct_points_apart(a.pos, b.pos);
    lemma_distinct_points_apart(first.pos, b.pos);
    let whole: int = distance_of(first.pos, b.pos) as int;
    let fine: int = fine_distance_of(first.pos, b.pos) as int;
    let overlap: int = overlap_of(first, b, margin);
    if overlap > 0 {
        let half: int = overlap / 2;
        let rest: int = overlap - half;
        let clearance: int = clearance_of(a, b, margin) as int;
        let after = separated(a, b, margin);
        let gap_x: int = b.pos.x - first.pos.x;
        let gap_y: int = b.pos.y - first.pos.y;
        let size_x: int = if gap_x >= 0 {
            gap_x
        } else {
            -gap_x
        };
        let size_y: int = if gap_y >= 0 {
            gap_y
        } else {
            -gap_y
        };
        let wide_x: int = size_x + share_of(size_x, half, fine) + share_of(size_x, rest, fine);
        let wide_y: int = size_y + share_of(size_y, half, fine) + share_of(size_y, rest, fine);
        let spread_x: int = after.1.pos.x - after.0.pos.x;
        let spread_y: int = after.1.pos.y - after.0.pos.y;
        let square: int = size_x * size_x + size_y * size_y;
        let found: int = wide_x * wide_x + wide_y * wide_y;
        lemma_dist2_bound(first.pos, b.pos);
        lemma_fine_distance(first.pos, b.pos);
        lemma_floor_sqrt_brackets(dist2(first.pos, b.pos));
        assert(square == dist2(first.pos, b.pos)) by (nonlinear_arith)
            requires
                square == size_x * size_x + size_y * size_y,
                size_x == gap_x || size_x == -gap_x,
                size_y == gap_y || size_y == -gap_y,
                gap_x == b.pos.x - first.pos.x,
                gap_y == b.pos.y - first.pos.y,
                dist2(first.pos, b.pos) == (first.pos.x - b.pos.x) * (first.pos.x - b.pos.x) + (
                first.pos.y - b.pos.y) * (first.pos.y - b.pos.y),
        ;
        // no axis gap is wider than the distance
        assert((size_x * FINE) * (size_x * FINE) <= square * (FINE * FINE) && (size_y * FINE) * (
        size_y * FINE) <= square * (FINE * FINE)) by (nonlinear_arith)
            requires
                square == size_x * size_x + size_y * size_y,
        ;
        assert(size_x * FINE <= fine && size_y * FINE <= fine) by (nonlinear_arith)
            requires
                (size_x * FINE) * (size_x * FINE) < (fine + 1) * (fine + 1),
                (size_y * FINE) * (size_y * FINE) < (fine + 1) * (fine + 1),
                size_x >= 0,
                size_y >= 0,
                fine >= 0,
        ;
        lemma_axis_spreads(first.pos.x as int, b.pos.x as int, half, rest, fine);
        lemma_axis_spreads(first.pos.y as int, b.pos.y as int, half, rest, fine);
        assert(spread_x == wide_x || spread_x == -wide_x);
        assert(spread_y == wide_y || spread_y == -wide_y);
        lemma_dist2_bound(after.0.pos, after.1.pos);
        assert(dist2(after.0.pos, after.1.pos) == found) by (nonlinear_arith)
            requires
                found == wide_x * wide_x + wide_y * wide_y,
                spread_x == wide_x || spread_x == -wide_x,
                spread_y == wide_y || spread_y == -wide_y,
                spread_x == after.1.pos.x - after.0.pos.x,
                spread_y == after.1.pos.y - after.0.pos.y,
                dist2(after.0.pos, after.1.pos) == (after.0.pos.x - after.1.pos.x) * (
                after.0.pos.x - after.1.pos.x) + (after.0.pos.y - after.1.pos.y) * (after.0.pos.y
                    - after.1.pos.y),
        ;
        assert(half + rest == overlap);
        lemma_stretch_reaches(size_x, size_y, whole, fine, overlap, wide_x, wide_y);
        assert(whole + overlap == clearance);
        assert(clearance * clearance > 0) by (nonlinear_arith)
            requires
                clearance >= 1,
        ;
        lemma_floor_sqrt_dominates(dist2(after.0.pos, after.1.pos), clearance as nat);
        let extra: int = clearance / (FINE as int);
        assert(overlap < (extra + 1) * FINE && extra >= 0) by (nonlinear_arith)
            requires
                0 <= overlap <= clearance,
                extra == clearance / 0x8000_0000,
                FINE == 0x8000_0000,
        ;
        lemma_stretch_stays(size_x, size_y, whole, fine, overlap, extra, wide_x, wide_y);
        lemma_floor_sqrt_below(
            dist2(after.0.pos, after.1.pos),
            (whole + overlap + extra + 5) as nat,
        );
    }
}

proof fn lemma_relax_from_moves_only(garden: Seq<Flower>, i: int, j: int, margin: nat)
    ensures
        moved_only(garden, relax_from(garden, i, j, margin)),
    decreases garden.len() - i, garden.len() - j,
{
    if i < 0 || j <= i || i + 1 >= garden.len() {
    } else if j >= garden.len() {
        lemma_relax_from_moves_only(garden, i + 1, i + 2, margin);
    } else {
        let next = relax_pair(garden, i, j, margin);
        lemma_separated_keeps_blooms(garden[i], garden[j], margin);
        lemma_relax_from_moves_only(next, i, j + 1, margin);
        let last = relax_from(next, i, j + 1, margin);
        assert forall|k: int| 0 <= k < garden.len() implies (#[trigger] last[k]) == (Flower {
            pos: last[k].pos,
            ..garden[k]
        }) by {
            assert(next[k] == (Flower { pos: next[k].pos, ..garden[k] }));
        }
    }
}

proof fn lemma_relax_from_settled(garden: Seq<Flower>, i: int, j: int, margin: nat)
    requires
        settled(garden, margin),
    ensures
        relax_from(garden, i, j, margin) == garden,
    decreases garden.len() - i, garden.len() - j,
{
    if i < 0 || j <= i || i + 1 >= garden.len() {
    } else if j >= garden.len() {
        lemma_relax_from_settled(garden, i + 1, i + 2, margin);
    } else {
        lemma_separated_keeps_blooms(garden[i], garden[j], margin);
        assert(relax_pair(garden, i, j, margin) =~= garden);
        lemma_relax_from_settled(garden, i, j + 1, margin);
    }
}

/// A pass keeps every bloom in its place in the garden and changes nothing
/// of it but its position.
pub proof fn lemma_relaxed_moves_only(garden: Seq<Flower>, margin: nat)
    ensures
        moved_only(garden, relaxed(garden, margin)),
{
    lemma_relax_from_moves_only(garden, 0, 1, margin);
}

/// A pass over a garden in which no two blooms share a centre or overlap
/// leaves every bloom exactly where it is.
pub proof fn lemma_relaxed_settled_unchanged(garden: Seq<Flower>, margin: nat)
    requires
        settled(garden, margin),
    ensures
        relaxed(garden, margin) == garden,
{
    lemma_relax_from_settled(garden, 0, 1, margin);
}

/// A garden of two blooms is cleared and at rest after one pass, unless a
/// move was stopped at the end of the coordinate range: the pass corrects
/// the one pair, which leaves the two without overlap, not pushed too far
/// and with their middle kept, and a second pass changes nothing.
pub proof fn lemma_pair_rests_after_one_pass(a: Flower, b: Flower, margin: nat)
    requires
        corrected_freely(a, b, margin),
    ensures
        relaxed(seq![a, b], margin) == seq![separated(a, b, margin).0, separated(a, b, margin).1],
        cleared(a, b, margin, (relaxed(seq![a, b], margin)[0], relaxed(seq![a, b], margin)[1])),
        settled(relaxed(seq![a, b], margin), margin),
        relaxed(relaxed(seq![a, b], margin), margin) == relaxed(seq![a, b], margin),
{
    let garden = seq![a, b];
    let after = seq![separated(a, b, margin).0, separated(a, b, margin).1];
    reveal_with_fuel(relax_from, 3);
    assert(relax_pair(garden, 0, 1, margin) =~= after);
    assert(relaxed(garden, margin) == after);
    lemma_separated_clears(a, b, margin);
    lemma_relaxed_settled_unchanged(after, margin);
}

/// Taking one bloom out of a garden in which no two blooms share a centre
/// or overlap leaves such a garden.
pub proof fn lemma_removal_keeps_settled(garden: Seq<Flower>, index: int, margin: nat)
    requires
        settled(garden, margin),
        0 <= index < garden.len(),
    ensures
        settled(garden.remove(index), margin),
{
    let rest = garden.remove(index);
    assert forall|i: int, j: int| 0 <= i < j < rest.len() implies (#[trigger] rest[i]).pos != (
    #[trigger] rest[j]).pos && overlap_of(rest[i], rest[j], margin) <= 0 by {
        let from_i: int = if i < index {
            i
        } else {
            i + 1
        };
        let from_j: int = if j < index {
            j
        } else {
            j + 1
        };
        assert(rest[i] == garden[from_i]);
        assert(rest[j] == garden[from_j]);
    }
}

/// Every bloom that a filter keeps stood in the garden before.
proof fn lemma_kept_stood_before(garden: Seq<Flower>, keep: spec_fn(Flower) -> bool, place: int)
    requires
        0 <= place < garden.filter(keep).len(),
    ensures
        exists|from: int| 0 <= from < garden.len() && #[trigger] garden[from] == garden.filter(keep)[place],
    decreases garden.len(),
{
    reveal(Seq::filter);
    if garden.len() > 0 {
        let rest = garden.drop_last();
        if keep(garden.last()) && place == rest.filter(keep).len() {
            assert(garden[garden.len() - 1] == garden.filter(keep)[place]);
        } else {
            lemma_kept_stood_before(rest, keep, place);
            let from = choose|from: int|
                0 <= from < rest.len() && #[trigger] rest[from] == rest.filter(keep)[place];
            assert(garden[from] == garden.filter(keep)[place]);
        }
    }
}

/// Taking blooms out of a garden in which no two blooms share a centre or
/// overlap, whichever they are, leaves such a garden.
pub proof fn lemma_filter_keeps_settled(
    garden: Seq<Flower>,
    keep: spec_fn(Flower) -> bool,
    margin: nat,
)
    requires
        settled(garden, margin),
    ensures
        settled(garden.filter(keep), margin),
    decreases garden.len(),
{
    reveal(Seq::filter);
    if garden.len() > 0 {
        let rest = garden.drop_last();
        let last = garden.len() - 1;
        assert forall|i: int, j: int| 0 <= i < j < rest.len() implies (#[trigger] rest[i]).pos != (
        #[trigger] rest[j]).pos && overlap_of(rest[i], rest[j], margin) <= 0 by {
            assert(rest[i] == garden[i] && rest[j] == garden[j]);
        }
        lemma_filter_keeps_settled(rest, keep, margin);
        if keep(garden.last()) {
            let kept = garden.filter(keep);
            assert forall|i: int, j: int| 0 <= i < j < kept.len() implies (#[trigger] kept[i]).pos
                != (#[trigger] kept[j]).pos && overlap_of(kept[i], kept[j], margin) <= 0 by {
                if j < kept.len() - 1 {
                    assert(kept[i] == rest.filter(keep)[i] && kept[j] == rest.filter(keep)[j]);
                } else {
                    lemma_kept_stood_before(rest, keep, i);
                    let from = choose|from: int|
                        0 <= from < rest.len() && #[trigger] rest[from] == rest.filter(keep)[i];
                    assert(kept[i] == garden[from]);
                    assert(kept[j] == garden[last]);
                }
            }
        }
    }
}

fn nudge(point: Point) -> (moved: Point)
    ensures
        moved == nudged(point),
{
    if point.x < i32::MAX {
        Point { x: point.x + 1, y: point.y }
    } else {
        Point { x: point.x - 1, y: point.y }
    }
}

fn push_coordinate(from: i32, other: i32, push: u64, fine_apart: u64) -> (moved: i32)
    requires
        fine_apart >= 1,
        push <= 0x4_0000_0000,
    ensures
        moved == clamped(from + push_along(from - other, push as int, fine_apart as int)),
{
    let component: i64 = from as i64 - other as i64;
    let size: u64 = if component >= 0 {
        component as u64
    } else {
        (-component) as u64
    };
    proof {
        assert(0 <= size * push <= 0xffff_ffff * 0x4_0000_0000) by (nonlinear_arith)
            requires
                0 <= size <= 0xffff_ffff,
                0 <= push <= 0x4_0000_0000,
        ;
        assert(0 <= size * push * FINE <= 0xffff_ffff * 0x4_0000_0000 * 0x8000_0000)
            by (nonlinear_arith)
            requires
                0 <= size * push <= 0xffff_ffff * 0x4_0000_0000,
                FINE == 0x8000_0000,
        ;
    }
    let product: u128 = (size as u128) * (push as u128) * (FINE as u128);
    let share: u128 = (product + (fine_apart as u128) - 1) / (fine_apart as u128);
    proof {
        assert(0 <= (product + fine_apart - 1) / (fine_apart as int) <= product + fine_apart - 1)
            by (nonlinear_arith)
            requires
                product >= 0,
                fine_apart >= 1,
        ;
        assert(share == share_of(size as int, push as int, fine_apart as int));
    }
    let target: i128 = if component >= 0 {
        from as i128 + share as i128
    } else {
        from as i128 - share as i128
    };
    if target < i32::MIN as i128 {
        i32::MIN
    } else if target > i32::MAX as i128 {
        i32::MAX
    } else {
        target as i32
    }
}

fn push_point(point: Point, other: Point, push: u64, fine_apart: u64) -> (moved: Point)
    requires
        fine_apart >= 1,
        push <= 0x4_0000_0000,
    ensures
        moved == pushed(point, other, push as int, fine_apart as int),
{
    Point {
        x: push_coordinate(point.x, other.x, push, fine_apart),
        y: push_coordinate(point.y, other.y, push, fine_apart),
    }
}

/// Corrects one pair. Where the two centres coincide, the first bloom is
/// first moved one length unit aside. Then, if the two are closer than their
/// clearance (both radii and `margin`), each is moved straight away from the
/// other by half the overlap, the share of the move on each axis rounded up
/// to a whole length unit.
///
/// Unless a move was stopped at the end of the coordinate range, no overlap
/// is left between the two, a pair that overlapped ends up farther apart
/// than its clearance by [`push_slack`] at most, and the middle between two
/// distinct centres stays where it was within half a length unit on each
/// axis.
pub fn separate(a: Flower, b: Flower, margin: u32) -> (pair: (Flower, Flower))
    ensures
        pair == separated(a, b, margin as nat),
        corrected_freely(a, b, margin as nat) ==> cleared(a, b, margin as nat, pair),
{
    let first_pos: Point = if a.pos == b.pos {
        nudge(a.pos)
    } else {
        a.pos
    };
    proof {
        lemma_distinct_points_apart(a.pos, b.pos);
        lemma_distinct_points_apart(first_pos, b.pos);
        lemma_fine_distance(first_pos, b.pos);
        if corrected_freely(a, b, margin as nat) {
            lemma_separated_clears(a, b, margin as nat);
        }
    }
    let apart: u64 = distance(first_pos, b.pos);
    let fine_apart: u64 = fine_distance(first_pos, b.pos);
    let needed: u64 = a.footprint_radius() as u64 + b.footprint_radius() as u64 + margin as u64;
    let first = Flower { gene: a.gene, pos: first_pos, start_time: a.start_time, orientation: a.orientation };
    if needed > apart {
        let overlap: u64 = needed - apart;
        let half: u64 = overlap / 2;
        (
            Flower {
                gene: a.gene,
                pos: push_point(first_pos, b.pos, half, fine_apart),
                start_time: a.start_time,
                orientation: a.orientation,
            },
            Flower {
                gene: b.gene,
                pos: push_point(b.pos, first_pos, overlap - half, fine_apart),
                start_time: b.start_time,
                orientation: b.orientation,
            },
        )
    } else {
        (first, b)
    }
}

} // verus!
