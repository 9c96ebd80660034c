//! Where a new bloom fits: the largest radius free at a point, and the gene
//! scaled down to it.
//!
//! A bloom takes up its full-growth radius. Distances are rounded down, so
//! the room measured at a point never overstates the true room.

use vstd::prelude::*;
use crate::fixed::{lemma_floor_sqrt_brackets, UNIT};
use crate::flower::Flower;
use crate::gene::{FlowerGene, GeneParams};
use crate::geometry::{
    dist2,
    distance_of,
    edge_distance_of,
    lemma_dist2_bound,
    max_of,
    min_of,
    on_canvas,
    Point,
    Rect,
};

verus! {

/// The free length between `point` and the rim of `flower`: negative when
/// the point lies inside the bloom.
pub open spec fn gap_of(point: Point, flower: Flower) -> int {
    distance_of(flower.pos, point) - flower.radius()
}

/// The smallest gap between `point` and any of `others`; `None` when there
/// are no others.
pub open spec fn nearest_gap(point: Point, others: Seq<Flower>) -> Option<int>
    decreases others.len(),
{
    if others.len() == 0 {
        None
    } else {
        let gap = gap_of(point, others.last());
        match nearest_gap(point, others.drop_last()) {
            None => Some(gap),
            Some(least) => Some(min_of(least, gap)),
        }
    }
}

/// The largest radius a new bloom can have at `point`: the smallest gap to
/// the blooms already there, but not less than zero, then no more than the
/// distance to the nearest canvas edge, and in no case less than zero. With
/// no blooms around, the edge distance alone decides. At a point beyond an
/// edge of the canvas there is no room: the radius is zero.
pub open spec fn max_radius_of(canvas: Rect, point: Point, others: Seq<Flower>) -> int {
    let edge = edge_distance_of(canvas, point);
    match nearest_gap(point, others) {
        None => max_of(edge, 0),
        Some(gap) => max_of(min_of(max_of(gap, 0), edge), 0),
    }
}

/// Whether a bloom of full radius `size` keeps its size in `room`. A bloom
/// without extent always does.
pub open spec fn fits_unscaled(size: nat, room: int) -> bool {
    size == 0 || room >= size
}

/// Whether the scale `min(1, room / size)` reaches `threshold` millionths.
/// The scale of a bloom without extent is one.
pub open spec fn scale_accepted(size: nat, room: int, threshold: nat) -> bool {
    if fits_unscaled(size, room) {
        threshold <= UNIT
    } else {
        room * UNIT >= threshold * size
    }
}

/// The size of a bloom of full radius `size` multiplied by the scale
/// `min(1, room / size)`.
pub open spec fn scaled_size(size: nat, room: int) -> int {
    if fits_unscaled(size, room) {
        size as int
    } else {
        room
    }
}

/// The gene to plant at `point` when `requested` is asked for: `requested`
/// scaled by `min(1, room / size)`, or `None` when that scale is below
/// `threshold` millionths.
pub open spec fn try_place_of(
    point: Point,
    requested: GeneParams,
    others: Seq<Flower>,
    canvas: Rect,
    threshold: u32,
) -> Option<GeneParams> {
    let room = max_radius_of(canvas, point, others);
    if scale_accepted(requested.full_radius(), room, threshold as nat) {
        Some(requested.resized(scaled_size(requested.full_radius(), room) as u32))
    } else {
        None
    }
}

/// The nearest gap is the least of all gaps, and one of them.
pub proof fn lemma_nearest_gap_is_least(point: Point, others: Seq<Flower>)
    ensures
        nearest_gap(point, others) is None <==> others.len() == 0,
        nearest_gap(point, others) matches Some(least) ==> {
            &&& forall|i: int| 0 <= i < others.len() ==> least <= #[trigger] gap_of(point, others[i])
            &&& exists|i: int| 0 <= i < others.len() && least == #[trigger] gap_of(point, others[i])
        },
    decreases others.len(),
{
    if others.len() > 0 {
        let rest = others.drop_last();
        lemma_nearest_gap_is_least(point, rest);
        let gap = gap_of(point, others.last());
        let least = nearest_gap(point, others)->0;
        assert forall|i: int| 0 <= i < others.len() implies least <= #[trigger] gap_of(
            point,
            others[i],
        ) by {
            if i < rest.len() {
                assert(rest[i] == others[i]);
            }
        }
        if least == gap {
            assert(least == gap_of(point, others[others.len() - 1]));
        } else {
            let witness = choose|i: int|
                0 <= i < rest.len() && nearest_gap(point, rest)->0 == #[trigger] gap_of(
                    point,
                    rest[i],
                );
            assert(rest[witness] == others[witness]);
            assert(least == gap_of(point, others[witness]));
        }
    }
}

/// The admissible radius is never negative. At a point on the canvas it
/// never exceeds the distance from the point to the nearest canvas edge; at
/// a point beyond an edge it is zero. It never exceeds the gap to a bloom
/// that the point lies outside of, and is zero where the point lies inside a
/// bloom.
pub proof fn lemma_max_radius_bounds(canvas: Rect, point: Point, others: Seq<Flower>)
    ensures
        max_radius_of(canvas, point, others) >= 0,
        on_canvas(canvas, point) ==> max_radius_of(canvas, point, others) <= edge_distance_of(
            canvas,
            point,
        ),
        !on_canvas(canvas, point) ==> max_radius_of(canvas, point, others) == 0,
        max_radius_of(canvas, point, others) > 0 ==> max_radius_of(canvas, point, others)
            <= edge_distance_of(canvas, point),
        forall|i: int|
            0 <= i < others.len() ==> max_radius_of(canvas, point, others) <= max_of(
                #[trigger] gap_of(point, others[i]),
                0,
            ),
{
    lemma_nearest_gap_is_least(point, others);
}

/// A gene that placement returns never overlaps a bloom already there, as
/// long as it has a positive size or the point lies inside no bloom: its
/// radius and the other's together are at most the distance between the two
/// centres. A gene of positive size also stays within the canvas.
pub proof fn lemma_placement_clears_neighbours(
    point: Point,
    requested: GeneParams,
    others: Seq<Flower>,
    canvas: Rect,
    threshold: u32,
    index: int,
)
    requires
        0 <= index < others.len(),
        try_place_of(point, requested, others, canvas, threshold) matches Some(placed) && (
        placed.size > 0 || gap_of(point, others[index]) >= 0),
    ensures
        try_place_of(point, requested, others, canvas, threshold) matches Some(placed) && {
            &&& placed.size + others[index].radius() <= distance_of(others[index].pos, point)
            &&& (placed.size + others[index].radius()) * (placed.size + others[index].radius())
                <= dist2(others[index].pos, point)
            &&& placed.size > 0 ==> placed.size <= edge_distance_of(canvas, point)
            &&& placed.size <= requested.size
        },
{
    lemma_max_radius_bounds(canvas, point, others);
    let placed = try_place_of(point, requested, others, canvas, threshold)->0;
    let room = max_radius_of(canvas, point, others);
    let size = requested.full_radius();
    let gap = gap_of(point, others[index]);
    assert(room <= max_of(gap, 0));
    if !fits_unscaled(size, room) {
        assert(placed.size == room);
    }
    let together: nat = placed.size as nat + others[index].radius();
    let apart: nat = distance_of(others[index].pos, point);
    assert(together <= apart);
    lemma_floor_sqrt_brackets(dist2(others[index].pos, point));
    assert(together * together <= apart * apart) by (nonlinear_arith)
        requires
            together <= apart,
    ;
}

/// Asks whether a bloom of gene `requested` can be planted at `point`, and
/// at which size. The room at the point is the admissible radius there; the
/// scale is `min(1, room / full radius)`, or one for a gene without extent.
/// Returns `None` when the scale is below `min_scale_threshold` millionths,
/// otherwise `requested` with its size multiplied by the scale. Changes
/// nothing.
///
/// Inside a bloom and beyond the edges of the canvas the room is zero, and
/// so is the scale of every gene with an extent: under a threshold above
/// zero nothing is planted there, under a threshold of zero a bloom without
/// extent is.
pub fn try_place(
    point: Point,
    requested: &FlowerGene,
    others: &[Flower],
    canvas: Rect,
    min_scale_threshold: u32,
) -> (placed: Option<FlowerGene>)
    ensures
        match placed {
            Some(gene) => try_place_of(point, requested@, others@, canvas, min_scale_threshold)
                == Some(gene@),
            None => try_place_of(point, requested@, others@, canvas, min_scale_threshold) is None,
        },
        placed matches Some(gene) ==> forall|i: int|
            0 <= i < others@.len() && (gene@.size > 0 || gap_of(point, #[trigger] others@[i]) >= 0)
                ==> gene@.size + others@[i].radius() <= distance_of(others@[i].pos, point),
{
    let room: i64 = Flower::max_radius(canvas, point, others);
    let size: u32 = requested.full_radius();
    proof {
        lemma_room_in_range(canvas, point, others@);
        if try_place_of(point, requested@, others@, canvas, min_scale_threshold) is Some {
            let params = try_place_of(
                point,
                requested@,
                others@,
                canvas,
                min_scale_threshold,
            )->0;
            assert forall|i: int|
                0 <= i < others@.len() && (params.size > 0 || gap_of(point, #[trigger] others@[i])
                    >= 0) implies params.size + others@[i].radius() <= distance_of(
                others@[i].pos,
                point,
            ) by {
                lemma_placement_clears_neighbours(
                    point,
                    requested@,
                    others@,
                    canvas,
                    min_scale_threshold,
                    i,
                );
            }
        }
    }
    if size == 0 || room >= size as i64 {
        if min_scale_threshold <= UNIT {
            Some(requested.with_size(size))
        } else {
            None
        }
    } else {
        proof {
            assert(0 <= room * UNIT <= 0x2_0000_0000 * 1_000_000) by (nonlinear_arith)
                requires
                    0 <= room <= 0x2_0000_0000,
                    UNIT == 1_000_000,
            ;
            assert(0 <= min_scale_threshold * size <= 0xffff_ffff * 0xffff_ffff)
                by (nonlinear_arith)
                requires
                    0 <= min_scale_threshold <= 0xffff_ffff,
                    0 <= size <= 0xffff_ffff,
            ;
        }
        let reached: i128 = (room as i128) * (UNIT as i128);
        let needed: i128 = (min_scale_threshold as i128) * (size as i128);
        if reached >= needed {
            Some(requested.with_size(room as u32))
        } else {
            None
        }
    }
}

/// The admissible radius lies between zero and `2^33`.
pub proof fn lemma_room_in_range(canvas: Rect, point: Point, others: Seq<Flower>)
    ensures
        0 <= max_radius_of(canvas, point, others) <= 0x2_0000_0000,
{
    lemma_nearest_gap_is_least(point, others);
    if others.len() > 0 {
        let least = nearest_gap(point, others)->0;
        let witness = choose|i: int|
            0 <= i < others.len() && least == #[trigger] gap_of(point, others[i]);
        lemma_dist2_bound(others[witness].pos, point);
    }
}

} // verus!
