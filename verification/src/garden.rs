//! The garden: the collection that owns every bloom.
//!
//! Blooms stay in the order in which they were planted. The garden hands
//! out its blooms for reading only; positions change in a relaxation pass
//! and nowhere else.

use vstd::prelude::*;
use crate::fixed::UNIT;
use crate::flower::{Flower, Snapshot};
use crate::gene::{FlowerGene, GeneParams};
use crate::geometry::{
    dist2,
    distance_of,
    edge_distance_of,
    lemma_dist2_bound,
    on_canvas,
    squared_distance,
    Point,
    Rect,
};
use crate::packing::{
    fits_unscaled,
    lemma_placement_clears_neighbours,
    max_radius_of,
    try_place,
    try_place_of,
};
use crate::relax::{
    cleared,
    corrected_freely,
    lemma_filter_keeps_settled,
    lemma_pair_rests_after_one_pass,
    lemma_relaxed_moves_only,
    lemma_relaxed_settled_unchanged,
    lemma_removal_keeps_settled,
    moved_only,
    overlap_of,
    relax_from,
    relax_pair,
    relaxed,
    separate,
    settled,
};

verus! {

/// All blooms, in planting order.
#[derive(Debug)]
pub struct Garden {
    flowers: Vec<Flower>,
}

impl View for Garden {
    type V = Seq<Flower>;

    closed spec fn view(&self) -> Seq<Flower> {
        self.flowers@
    }
}

/// Whether `point` lies inside `flower`, closer to its centre than its
/// radius.
pub open spec fn covers(flower: Flower, point: Point) -> bool {
    dist2(flower.pos, point) < flower.radius() * flower.radius()
}

/// Whether the bloom at place `index` is the one a pointer at `point`
/// picks: it covers the point, no bloom that covers the point has its centre
/// closer, and of several equally close it is the first.
pub open spec fn is_nearest(garden: Seq<Flower>, point: Point, index: int) -> bool {
    &&& 0 <= index < garden.len()
    &&& covers(garden[index], point)
    &&& forall|k: int|
        0 <= k < garden.len() && covers(#[trigger] garden[k], point) ==> dist2(
            garden[index].pos,
            point,
        ) <= dist2(garden[k].pos, point)
    &&& forall|k: int|
        0 <= k < index && covers(#[trigger] garden[k], point) ==> dist2(garden[index].pos, point)
            < dist2(garden[k].pos, point)
}

/// The place of the bloom that a pointer at `point` picks, or `None` where
/// no bloom covers the point.
pub open spec fn nearest_of(garden: Seq<Flower>, point: Point) -> Option<int> {
    if exists|index: int| is_nearest(garden, point, index) {
        Some(choose|index: int| is_nearest(garden, point, index))
    } else {
        None
    }
}

/// At most one bloom is the nearest.
pub proof fn lemma_nearest_unique(garden: Seq<Flower>, point: Point, i: int, j: int)
    requires
        is_nearest(garden, point, i),
        is_nearest(garden, point, j),
    ensures
        i == j,
{
}

/// A pointer picks a bloom exactly where some bloom covers the point, and
/// the bloom it picks is the nearest.
pub proof fn lemma_nearest_of(garden: Seq<Flower>, point: Point)
    ensures
        nearest_of(garden, point) is None <==> forall|k: int|
            0 <= k < garden.len() ==> !covers(#[trigger] garden[k], point),
        nearest_of(garden, point) matches Some(index) ==> is_nearest(garden, point, index),
    decreases garden.len(),
{
    if garden.len() > 0 {
        let rest = garden.drop_last();
        let last = garden.len() - 1;
        lemma_nearest_of(rest, point);
        assert forall|k: int| 0 <= k < rest.len() implies rest[k] == garden[k] by {}
        match nearest_of(rest, point) {
            None => {
                if covers(garden[last], point) {
                    assert(is_nearest(garden, point, last));
                } else {
                    assert forall|k: int| 0 <= k < garden.len() implies !covers(
                        #[trigger] garden[k],
                        point,
                    ) by {
                        if k < last {
                            assert(!covers(rest[k], point));
                        }
                    }
                }
            },
            Some(index) => {
                assert(is_nearest(rest, point, index));
                assert(covers(garden[index], point));
                if covers(garden[last], point) && dist2(garden[last].pos, point) < dist2(
                    garden[index].pos,
                    point,
                ) {
                    assert forall|k: int|
                        0 <= k < garden.len() && covers(#[trigger] garden[k], point) implies dist2(
                        garden[last].pos,
                        point,
                    ) <= dist2(garden[k].pos, point) by {
                        if k < last {
                            assert(covers(rest[k], point));
                        }
                    }
                    assert forall|k: int|
                        0 <= k < last && covers(#[trigger] garden[k], point) implies dist2(
                        garden[last].pos,
                        point,
                    ) < dist2(garden[k].pos, point) by {
                        assert(covers(rest[k], point));
                    }
                    assert(is_nearest(garden, point, last));
                } else {
                    assert forall|k: int|
                        0 <= k < garden.len() && covers(#[trigger] garden[k], point) implies dist2(
                        garden[index].pos,
                        point,
                    ) <= dist2(garden[k].pos, point) by {
                        if k < last {
                            assert(covers(rest[k], point));
                        }
                    }
                    assert forall|k: int|
                        0 <= k < index && covers(#[trigger] garden[k], point) implies dist2(
                        garden[index].pos,
                        point,
                    ) < dist2(garden[k].pos, point) by {
                        assert(covers(rest[k], point));
                    }
                    assert(is_nearest(garden, point, index));
                }
            },
        }
    }
}

/// What planting at `point` makes of a garden: where a gene is returned for
/// the point, a bloom of that gene is added behind all others, planted at
/// `now` and turned by `orientation`; elsewhere the garden stays as it is.
pub open spec fn planted_at(
    before: Seq<Flower>,
    after: Seq<Flower>,
    point: Point,
    requested: GeneParams,
    canvas: Rect,
    threshold: u32,
    now: u64,
    orientation: u32,
) -> bool {
    match try_place_of(point, requested, before, canvas, threshold) {
        Some(params) => {
            &&& after.len() == before.len() + 1
            &&& after.drop_last() == before
            &&& after.last().gene@ == params
            &&& after.last().pos == point
            &&& after.last().start_time == now
            &&& after.last().orientation == orientation
        },
        None => after == before,
    }
}

/// What planting along `points` makes of a garden: the points are tried in
/// order, each against the garden as the points before it left it, and each
/// new bloom is turned by some share of a full turn.
pub open spec fn planted_along(
    before: Seq<Flower>,
    after: Seq<Flower>,
    points: Seq<Point>,
    requested: GeneParams,
    canvas: Rect,
    threshold: u32,
    now: u64,
) -> bool
    decreases points.len(),
{
    if points.len() == 0 {
        after == before
    } else {
        exists|middle: Seq<Flower>, orientation: u32|
            {
                &&& #[trigger] planted_at(
                    middle,
                    after,
                    points.last(),
                    requested,
                    canvas,
                    threshold,
                    now,
                    orientation,
                )
                &&& orientation < UNIT
                &&& planted_along(
                    before,
                    middle,
                    points.drop_last(),
                    requested,
                    canvas,
                    threshold,
                    now,
                )
            }
    }
}

/// Planting keeps a garden free of overlaps: where no two blooms share a
/// centre or overlap, and a gene of positive size is planted under a
/// positive threshold, no two blooms share a centre or overlap afterwards.
pub proof fn lemma_planting_keeps_settled(
    before: Seq<Flower>,
    after: Seq<Flower>,
    point: Point,
    requested: GeneParams,
    canvas: Rect,
    threshold: u32,
    now: u64,
    orientation: u32,
)
    requires
        settled(before, 0),
        requested.size > 0,
        threshold > 0,
        planted_at(before, after, point, requested, canvas, threshold, now, orientation),
    ensures
        settled(after, 0),
{
    if try_place_of(point, requested, before, canvas, threshold) is Some {
        let placed = try_place_of(point, requested, before, canvas, threshold)->0;
        let room = max_radius_of(canvas, point, before);
        let last = before.len() as int;
        assert(placed.size > 0) by {
            if !fits_unscaled(requested.full_radius(), room) {
                assert(room > 0) by (nonlinear_arith)
                    requires
                        room * UNIT >= threshold * requested.size,
                        threshold > 0,
                        requested.size > 0,
                        UNIT == 1_000_000,
                ;
            }
        }
        assert forall|i: int| 0 <= i < last implies after[i] == before[i] by {
            assert(after.drop_last()[i] == after[i]);
        }
        assert forall|i: int, j: int| 0 <= i < j < after.len() implies (#[trigger] after[i]).pos
            != (#[trigger] after[j]).pos && overlap_of(after[i], after[j], 0) <= 0 by {
            if j < last {
                assert(before[i].pos != before[j].pos && overlap_of(before[i], before[j], 0) <= 0);
            } else {
                lemma_placement_clears_neighbours(point, requested, before, canvas, threshold, i);
                lemma_dist2_bound(after[i].pos, after[j].pos);
                assert(distance_of(after[i].pos, after[j].pos) > 0);
            }
        }
    }
}

/// Planting along a stroke keeps a garden free of overlaps, under the same
/// conditions as planting at one point.
pub proof fn lemma_planting_along_keeps_settled(
    before: Seq<Flower>,
    after: Seq<Flower>,
    points: Seq<Point>,
    requested: GeneParams,
    canvas: Rect,
    threshold: u32,
    now: u64,
)
    requires
        settled(before, 0),
        requested.size > 0,
        threshold > 0,
        planted_along(before, after, points, requested, canvas, threshold, now),
    ensures
        settled(after, 0),
    decreases points.len(),
{
    if points.len() > 0 {
        let (middle, orientation) = choose|middle: Seq<Flower>, orientation: u32|
            {
                &&& #[trigger] planted_at(
                    middle,
                    after,
                    points.last(),
                    requested,
                    canvas,
                    threshold,
                    now,
                    orientation,
                )
                &&& orientation < UNIT
                &&& planted_along(
                    before,
                    middle,
                    points.drop_last(),
                    requested,
                    canvas,
                    threshold,
                    now,
                )
            };
        lemma_planting_along_keeps_settled(
            before,
            middle,
            points.drop_last(),
            requested,
            canvas,
            threshold,
            now,
        );
        lemma_planting_keeps_settled(
            middle,
            after,
            points.last(),
            requested,
            canvas,
            threshold,
            now,
            orientation,
        );
    }
}

/// The share of a full turn that a random sample stands for: the sample's
/// share of the whole range of samples, in millionths, rounded down.
pub open spec fn turn_share_of(sample: u32) -> nat {
    ((sample * UNIT) / 0x1_0000_0000) as nat
}

/// The orientation that a random sample stands for, from nothing up to, but
/// not including, a full turn.
pub fn orientation_from_sample(sample: u32) -> (orientation: u32)
    ensures
        orientation == turn_share_of(sample),
        orientation < UNIT,
{
    proof {
        assert(0 <= sample * UNIT <= 0xffff_ffff * 1_000_000) by (nonlinear_arith)
            requires
                0 <= sample <= 0xffff_ffff,
                UNIT == 1_000_000,
        ;
    }
    let scaled: u64 = (sample as u64) * (UNIT as u64);
    (scaled / 0x1_0000_0000) as u32
}

/// A fresh value from the thread-local random number generator, drawn by
/// `nannou::rand::random`. Nothing is claimed of the value: any `u32` may
/// come back, and two calls may differ. The generator takes its seed from
/// the operating system, on a thread's first draw and again from time to
/// time, and the call panics where the system has no seed to give.
#[verifier::external_body]
fn random_sample() -> (sample: u32) {
    nannou::rand::random::<u32>()
}

impl Garden {
    /// An empty garden.
    pub fn new() -> (garden: Garden)
        ensures
            garden@ == Seq::<Flower>::empty(),
    {
        Garden { flowers: Vec::new() }
    }

    /// The number of blooms.
    pub fn len(&self) -> (count: usize)
        ensures
            count == self@.len(),
    {
        self.flowers.len()
    }

    /// Whether the garden holds no bloom.
    pub fn is_empty(&self) -> (empty: bool)
        ensures
            empty == (self@.len() == 0),
    {
        self.flowers.len() == 0
    }

    /// All blooms in planting order, for reading.
    pub fn flowers(&self) -> (all: &[Flower])
        ensures
            all@ == self@,
    {
        self.flowers.as_slice()
    }

    /// The bloom at place `index`, or `None` past the end.
    pub fn get(&self, index: usize) -> (found: Option<&Flower>)
        ensures
            index < self@.len() ==> found == Some(&self@[index as int]),
            index >= self@.len() ==> found is None,
    {
        if index < self.flowers.len() {
            Some(&self.flowers[index])
        } else {
            None
        }
    }

    /// Every bloom as a renderer needs it at the time `now`, in planting
    /// order.
    pub fn snapshots(&self, now: u64) -> (shots: Vec<Snapshot>)
        ensures
            shots@.len() == self@.len(),
            forall|i: int| 0 <= i < self@.len() ==> #[trigger] shots@[i] == self@[i].snapshot_at(now),
    {
        let mut shots: Vec<Snapshot> = Vec::new();
        let mut index: usize = 0;
        while index < self.flowers.len()
            invariant
                index <= self.flowers@.len(),
                shots@.len() == index,
                forall|i: int|
                    0 <= i < index ==> #[trigger] shots@[i] == self.flowers@[i].snapshot_at(now),
            decreases self.flowers@.len() - index,
        {
            shots.push(self.flowers[index].snapshot(now));
            index += 1;
        }
        shots
    }

    /// Adds a bloom behind all others. The garden does not ask whether it
    /// overlaps one of them: that is for the caller to settle first.
    pub fn insert(&mut self, flower: Flower)
        ensures
            final(self)@ == old(self)@.push(flower),
    {
        self.flowers.push(flower);
    }

    /// Takes the bloom at place `index` out and returns it; the blooms
    /// behind it move up. Past the end nothing happens.
    pub fn remove_at(&mut self, index: usize) -> (removed: Option<Flower>)
        ensures
            index < old(self)@.len() ==> removed == Some(old(self)@[index as int]) && final(self)@
                == old(self)@.remove(index as int),
            index >= old(self)@.len() ==> removed is None && final(self)@ == old(self)@,
            settled(old(self)@, 0) ==> settled(final(self)@, 0),
    {
        if index < self.flowers.len() {
            proof {
                if settled(self@, 0) {
                    lemma_removal_keeps_settled(self@, index as int, 0);
                }
            }
            Some(self.flowers.remove(index))
        } else {
            None
        }
    }

    /// Takes every bloom out.
    pub fn clear(&mut self)
        ensures
            final(self)@ == Seq::<Flower>::empty(),
    {
        self.flowers.clear();
    }

    /// The place of the bloom that a pointer at `point` picks: among the
    /// blooms that cover the point, the one whose centre is closest, and the
    /// first of several equally close. `None` where no bloom covers the
    /// point.
    pub fn nearest_index(&self, point: Point) -> (found: Option<usize>)
        ensures
            match found {
                Some(index) => nearest_of(self@, point) == Some(index as int),
                None => nearest_of(self@, point) is None,
            },
    {
        let mut best: Option<(usize, u128)> = None;
        let mut index: usize = 0;
        while index < self.flowers.len()
            invariant
                index <= self.flowers@.len(),
                match best {
                    None => forall|k: int| 0 <= k < index ==> !covers(#[trigger] self.flowers@[k], point),
                    Some((place, least)) => {
                        &&& place < index
                        &&& least == dist2(self.flowers@[place as int].pos, point)
                        &&& covers(self.flowers@[place as int], point)
                        &&& forall|k: int|
                            0 <= k < index && covers(#[trigger] self.flowers@[k], point) ==> least
                                <= dist2(self.flowers@[k].pos, point)
                        &&& forall|k: int|
                            0 <= k < place && covers(#[trigger] self.flowers@[k], point) ==> least
                                < dist2(self.flowers@[k].pos, point)
                    },
                },
            decreases self.flowers@.len() - index,
        {
            let flower = &self.flowers[index];
            let apart: u128 = squared_distance(flower.pos, point);
            let radius: u128 = flower.footprint_radius() as u128;
            proof {
                assert(0 <= radius * radius <= 0xffff_ffff * 0xffff_ffff) by (nonlinear_arith)
                    requires
                        0 <= radius <= 0xffff_ffff,
                ;
            }
            if apart < radius * radius {
                let closer: bool = match best {
                    None => true,
                    Some((_, least)) => apart < least,
                };
                if closer {
                    best = Some((index, apart));
                }
            }
            index += 1;
        }
        match best {
            None => {
                proof {
                    lemma_nearest_of(self@, point);
                }
                None
            },
            Some((place, _)) => {
                proof {
                    assert(is_nearest(self@, point, place as int));
                    lemma_nearest_of(self@, point);
                    lemma_nearest_unique(
                        self@,
                        point,
                        place as int,
                        nearest_of(self@, point)->0,
                    );
                }
                Some(place)
            },
        }
    }

    /// The bloom that a pointer at `point` picks, if any.
    pub fn nearest_to(&self, point: Point) -> (found: Option<&Flower>)
        ensures
            match found {
                Some(flower) => nearest_of(self@, point) matches Some(index) && *flower
                    == self@[index],
                None => nearest_of(self@, point) is None,
            },
    {
        match self.nearest_index(point) {
            Some(index) => {
                proof {
                    lemma_nearest_of(self@, point);
                }
                Some(&self.flowers[index])
            },
            None => None,
        }
    }

    /// Takes out the bloom that a pointer at `point` picks and returns it.
    /// Where no bloom covers the point nothing happens.
    pub fn remove_nearest(&mut self, point: Point) -> (removed: Option<Flower>)
        ensures
            match nearest_of(old(self)@, point) {
                Some(index) => removed == Some(old(self)@[index]) && final(self)@ == old(
                    self,
                )@.remove(index),
                None => removed is None && final(self)@ == old(self)@,
            },
            settled(old(self)@, 0) ==> settled(final(self)@, 0),
    {
        match self.nearest_index(point) {
            Some(index) => {
                proof {
                    lemma_nearest_of(self@, point);
                    if settled(self@, 0) {
                        lemma_removal_keeps_settled(self@, index as int, 0);
                    }
                }
                Some(self.flowers.remove(index))
            },
            None => None,
        }
    }

    /// The largest radius a new bloom can have at `point` without touching
    /// a bloom of the garden or leaving `canvas`. It is never negative: where
    /// the point lies inside a bloom or beyond an edge of the canvas it is
    /// zero.
    pub fn max_admissible_radius(&self, point: Point, canvas: Rect) -> (radius: i64)
        ensures
            radius == max_radius_of(canvas, point, self@),
            radius >= 0,
            on_canvas(canvas, point) ==> radius <= edge_distance_of(canvas, point),
            !on_canvas(canvas, point) ==> radius == 0,
    {
        Flower::max_radius(canvas, point, self.flowers.as_slice())
    }

    /// Asks whether a bloom of gene `requested` can be planted at `point`,
    /// and returns the gene to plant: `requested` scaled down to the room
    /// at the point, or `None` when the scale would be below
    /// `min_scale_threshold` millionths. Changes nothing.
    pub fn try_place(
        &self,
        point: Point,
        requested: &FlowerGene,
        canvas: Rect,
        min_scale_threshold: u32,
    ) -> (placed: Option<FlowerGene>)
        ensures
            match placed {
                Some(gene) => try_place_of(point, requested@, self@, canvas, min_scale_threshold)
                    == Some(gene@),
                None => try_place_of(point, requested@, self@, canvas, min_scale_threshold)
                    is None,
            },
    {
        try_place(point, requested, self.flowers.as_slice(), canvas, min_scale_threshold)
    }

    /// Plants a bloom of gene `requested` at `point` if it fits: asks
    /// [`Garden::try_place`], and where a gene comes back adds a bloom of
    /// that gene at the point, planted at `now` and turned by `orientation`.
    /// Says whether a bloom was planted.
    pub fn plant(
        &mut self,
        point: Point,
        requested: &FlowerGene,
        canvas: Rect,
        min_scale_threshold: u32,
        orientation: u32,
        now: u64,
    ) -> (planted: bool)
        ensures
            planted == try_place_of(point, requested@, old(self)@, canvas, min_scale_threshold)
                is Some,
            planted_at(
                old(self)@,
                final(self)@,
                point,
                requested@,
                canvas,
                min_scale_threshold,
                now,
                orientation,
            ),
            settled(old(self)@, 0) && requested@.size > 0 && min_scale_threshold > 0 ==> settled(
                final(self)@,
                0,
            ),
    {
        let planted: bool =
        match self.try_place(point, requested, canvas, min_scale_threshold) {
            Some(gene) => {
                self.flowers.push(Flower::new(point, gene, orientation, now));
                proof {
                    assert(self.flowers@.drop_last() =~= old(self)@);
                }
                true
            },
            None => false,
        };
        proof {
            if settled(old(self)@, 0) && requested@.size > 0 && min_scale_threshold > 0 {
                lemma_planting_keeps_settled(
                    old(self)@,
                    self@,
                    point,
                    requested@,
                    canvas,
                    min_scale_threshold,
                    now,
                    orientation,
                );
            }
        }
        planted
    }

    /// Plants along a stroke: tries each of `points` in order, as
    /// [`Garden::plant`] does, with an orientation drawn at random for each.
    /// A bloom planted at one point counts when the next is tried. Returns
    /// the number of blooms planted.
    pub fn plant_along(
        &mut self,
        points: &[Point],
        requested: &FlowerGene,
        canvas: Rect,
        min_scale_threshold: u32,
        now: u64,
    ) -> (count: usize)
        ensures
            planted_along(
                old(self)@,
                final(self)@,
                points@,
                requested@,
                canvas,
                min_scale_threshold,
                now,
            ),
            count == final(self)@.len() - old(self)@.len(),
            settled(old(self)@, 0) && requested@.size > 0 && min_scale_threshold > 0 ==> settled(
                final(self)@,
                0,
            ),
    {
        let mut count: usize = 0;
        let mut index: usize = 0;
        while index < points.len()
            invariant
                index <= points@.len(),
                count <= index,
                count == self@.len() - old(self)@.len(),
                planted_along(
                    old(self)@,
                    self@,
                    points@.take(index as int),
                    requested@,
                    canvas,
                    min_scale_threshold,
                    now,
                ),
            decreases points@.len() - index,
        {
            let ghost middle = self@;
            let orientation: u32 = orientation_from_sample(random_sample());
            let planted: bool = self.plant(
                points[index],
                requested,
                canvas,
                min_scale_threshold,
                orientation,
                now,
            );
            proof {
                let tried = points@.take(index as int + 1);
                assert(tried.drop_last() =~= points@.take(index as int));
                assert(tried.last() == points@[index as int]);
                assert(planted_along(
                    old(self)@,
                    middle,
                    tried.drop_last(),
                    requested@,
                    canvas,
                    min_scale_threshold,
                    now,
                ));
                assert(planted_at(
                    middle,
                    self@,
                    tried.last(),
                    requested@,
                    canvas,
                    min_scale_threshold,
                    now,
                    orientation,
                ));
                assert(planted_along(
                    old(self)@,
                    self@,
                    tried,
                    requested@,
                    canvas,
                    min_scale_threshold,
                    now,
                ));
            }
            if planted {
                count += 1;
            }
            index += 1;
        }
        proof {
            assert(points@.take(index as int) =~= points@);
            if settled(old(self)@, 0) && requested@.size > 0 && min_scale_threshold > 0 {
                lemma_planting_along_keeps_settled(
                    old(self)@,
                    self@,
                    points@,
                    requested@,
                    canvas,
                    min_scale_threshold,
                    now,
                );
            }
        }
        count
    }

    /// Takes out every bloom that has faded out entirely at the time `now`
    /// and returns their number. The others keep their order. Until it is
    /// taken out, a dead bloom takes up room like any other.
    pub fn remove_dead(&mut self, now: u64) -> (removed: usize)
        ensures
            final(self)@ == old(self)@.filter(|flower: Flower| !flower.dead_at(now)),
            removed == old(self)@.len() - final(self)@.len(),
            settled(old(self)@, 0) ==> settled(final(self)@, 0),
    {
        let ghost alive = |flower: Flower| !flower.dead_at(now);
        proof {
            if settled(self@, 0) {
                lemma_filter_keeps_settled(self@, alive, 0);
            }
        }
        let mut kept: Vec<Flower> = Vec::new();
        let mut index: usize = 0;
        while index < self.flowers.len()
            invariant
                index <= self.flowers@.len(),
                self.flowers@ == old(self)@,
                kept@ == self.flowers@.take(index as int).filter(alive),
                kept@.len() <= index,
                alive == (|flower: Flower| !flower.dead_at(now)),
            decreases self.flowers@.len() - index,
        {
            let flower: Flower = self.flowers[index];
            proof {
                let seen = self.flowers@.take(index as int + 1);
                assert(seen.drop_last() =~= self.flowers@.take(index as int));
                assert(seen.last() == flower);
                reveal(Seq::filter);
                assert(seen.filter(alive) == if alive(flower) {
                    seen.drop_last().filter(alive).push(flower)
                } else {
                    seen.drop_last().filter(alive)
                });
            }
            if !flower.is_dead(now) {
                kept.push(flower);
            }
            index += 1;
        }
        proof {
            assert(self.flowers@.take(index as int) =~= self.flowers@);
        }
        let removed: usize = self.flowers.len() - kept.len();
        self.flowers = kept;
        removed
    }

    /// One relaxation pass: every pair of blooms is visited once, in
    /// planting order, and pushed apart where the two are closer than their
    /// radii and `margin` together. Only positions change, and none where no
    /// two blooms share a centre or overlap.
    ///
    /// In a garden of two blooms one pass is enough, unless a move was
    /// stopped at the end of the coordinate range: the two do not overlap
    /// afterwards, their centres are farther apart than radii and margin ask
    /// by a few length units at most, and the middle between them stayed
    /// where it was. With more blooms a push may drive a bloom into a third
    /// one, and passes are to be repeated.
    pub fn relax(&mut self, margin: u32)
        ensures
            final(self)@ == relaxed(old(self)@, margin as nat),
            moved_only(old(self)@, final(self)@),
            settled(old(self)@, margin as nat) ==> final(self)@ == old(self)@,
            old(self)@.len() == 2 && corrected_freely(old(self)@[0], old(self)@[1], margin as nat)
                ==> settled(final(self)@, margin as nat) && cleared(
                old(self)@[0],
                old(self)@[1],
                margin as nat,
                (final(self)@[0], final(self)@[1]),
            ),
    {
        let count: usize = self.flowers.len();
        let ghost target = relaxed(self@, margin as nat);
        let mut i: usize = 0;
        while i < count
            invariant
                i <= count,
                self.flowers@.len() == count,
                relax_from(self.flowers@, i as int, i + 1, margin as nat) == target,
            decreases count - i,
        {
            let mut j: usize = i + 1;
            while j < count
                invariant
                    i < j <= count,
                    self.flowers@.len() == count,
                    relax_from(self.flowers@, i as int, j as int, margin as nat) == target,
                decreases count - j,
            {
                let ghost before = self.flowers@;
                let pair = separate(self.flowers[i], self.flowers[j], margin);
                self.flowers[i] = pair.0;
                self.flowers[j] = pair.1;
                proof {
                    assert(self.flowers@ =~= relax_pair(before, i as int, j as int, margin as nat));
                }
                j += 1;
            }
            i += 1;
        }
        proof {
            lemma_relaxed_moves_only(old(self)@, margin as nat);
            if settled(old(self)@, margin as nat) {
                lemma_relaxed_settled_unchanged(old(self)@, margin as nat);
            }
            if old(self)@.len() == 2 && corrected_freely(
                old(self)@[0],
                old(self)@[1],
                margin as nat,
            ) {
                assert(old(self)@ =~= seq![old(self)@[0], old(self)@[1]]);
                lemma_pair_rests_after_one_pass(old(self)@[0], old(self)@[1], margin as nat);
            }
        }
    }
}

} // verus!
