//! One bloom: a gene bound to a place, an orientation and a time of birth.
//!
//! Everything a bloom shows is a function of its fields and of the time
//! handed in: nothing here reads a clock. Times are milliseconds on the
//! caller's clock, angles are millionths of a full turn.

use vstd::prelude::*;
use crate::colour::Colour;
use crate::easing::{bloom_progress_of, death_progress_of, ease_out, fade_out, is_dead_of, span_of};
use crate::fixed::{portion, portion_of, UNIT};
use crate::gene::FlowerGene;
use crate::geometry::{distance, edge_distance, edge_distance_of, on_canvas, Point, Rect};
use crate::packing::{gap_of, lemma_max_radius_bounds, max_radius_of, nearest_gap};

verus! {

/// A bloom in the garden.
#[derive(Clone, Copy, Debug, PartialEq, Eq)]
pub struct Flower {
    pub gene: FlowerGene,
    pub pos: Point,
    /// When the bloom was planted.
    pub start_time: u64,
    /// The direction of the first petal.
    pub orientation: u32,
}

/// One drawable piece of a bloom.
#[derive(Clone, Copy, Debug, PartialEq, Eq)]
pub enum Shape {
    /// An ellipse whose long axis points away from `anchor` at `angle`. Its
    /// middle lies `offset` away from `anchor` in that direction.
    Petal { anchor: Point, angle: u64, offset: u32, half_length: u32, half_width: u32, colour: Colour },
    /// A filled circle.
    Disc { centre: Point, radius: u32, colour: Colour },
}

/// What a renderer needs of a bloom at one moment.
#[derive(Clone, Copy, Debug, PartialEq, Eq)]
pub struct Snapshot {
    pub position: Point,
    pub orientation: u32,
    /// Growth, in millionths.
    pub bloom_progress: u32,
    /// Opacity, in millionths; one whole for a bloom that never decays.
    pub death_progress: u32,
    pub gene: FlowerGene,
}

/// The time from `start` to `now`; zero when `now` lies before `start`.
pub open spec fn elapsed_between(start: u64, now: u64) -> nat {
    if now >= start {
        (now - start) as nat
    } else {
        0
    }
}

impl Flower {
    /// The radius this bloom takes up when fully grown. Placement and
    /// relaxation go by this radius at every age, so that growth never makes
    /// a bloom touch a neighbour it was clear of.
    pub open spec fn radius(self) -> nat {
        self.gene@.full_radius()
    }

    /// Growth of this bloom after `elapsed`.
    pub open spec fn bloom_at(self, elapsed: nat) -> nat {
        bloom_progress_of(elapsed, self.gene@.bloom_duration as nat)
    }

    /// Opacity of this bloom after `elapsed`.
    pub open spec fn opacity_at(self, elapsed: nat) -> nat {
        death_progress_of(elapsed, span_of(self.gene@.life_span), self.gene@.bloom_duration as nat)
    }

    /// Whether this bloom has faded out entirely at the time `now`.
    pub open spec fn dead_at(self, now: u64) -> bool {
        is_dead_of(
            elapsed_between(self.start_time, now),
            span_of(self.gene@.life_span),
            self.gene@.bloom_duration as nat,
        )
    }

    /// The bloom as a renderer needs it at the time `now`.
    pub open spec fn snapshot_at(self, now: u64) -> Snapshot {
        let elapsed = elapsed_between(self.start_time, now);
        Snapshot {
            position: self.pos,
            orientation: self.orientation,
            bloom_progress: self.bloom_at(elapsed) as u32,
            death_progress: self.opacity_at(elapsed) as u32,
            gene: self.gene,
        }
    }

    /// The radius the bloom has reached after `elapsed`.
    pub open spec fn reach_at(self, elapsed: nat) -> int {
        portion_of(self.gene@.size as int, self.bloom_at(elapsed) as int)
    }

    /// The direction of petal number `index`: that share of a full turn,
    /// rounded down, past the bloom's orientation.
    pub open spec fn petal_angle(self, index: int) -> int {
        (index * UNIT) / (self.gene@.num_petals as int) + self.orientation
    }

    /// Petal number `index` after `elapsed`.
    pub open spec fn petal_at(self, index: int, elapsed: nat) -> Shape {
        let reach = self.reach_at(elapsed);
        Shape::Petal {
            anchor: self.pos,
            angle: self.petal_angle(index) as u64,
            offset: self.gene@.petal_offset_at(reach) as u32,
            half_length: self.gene@.petal_half_length_at(reach) as u32,
            half_width: self.gene@.petal_half_width_at(reach) as u32,
            colour: Colour { alpha: self.opacity_at(elapsed) as u32, ..self.gene@.petal_colour },
        }
    }

    /// The outer centre disc after `elapsed`, in the petals' colour.
    pub open spec fn outer_disc_at(self, elapsed: nat) -> Shape {
        Shape::Disc {
            centre: self.pos,
            radius: self.gene@.outer_radius_at(self.reach_at(elapsed)) as u32,
            colour: Colour { alpha: self.opacity_at(elapsed) as u32, ..self.gene@.petal_colour },
        }
    }

    /// The inner centre disc after `elapsed`.
    pub open spec fn inner_disc_at(self, elapsed: nat) -> Shape {
        Shape::Disc {
            centre: self.pos,
            radius: self.gene@.inner_radius_at(self.reach_at(elapsed)) as u32,
            colour: Colour { alpha: self.opacity_at(elapsed) as u32, ..self.gene@.centre_colour },
        }
    }

    /// Everything there is to draw of this bloom after `elapsed`: its petals
    /// in order, then the outer and the inner centre disc.
    pub open spec fn geometry_at(self, elapsed: nat) -> Seq<Shape> {
        Seq::new(self.gene@.num_petals as nat, |index: int| self.petal_at(index, elapsed)).push(
            self.outer_disc_at(elapsed),
        ).push(self.inner_disc_at(elapsed))
    }

    /// A bloom of the given gene, planted at `pos` at the time `start_time`.
    pub fn new(pos: Point, gene: FlowerGene, orientation: u32, start_time: u64) -> (flower: Flower)
        ensures
            flower == (Flower { gene, pos, start_time, orientation }),
    {
        Flower { gene, pos, start_time, orientation }
    }

    /// The age of the bloom at the time `now`; zero before it was planted.
    pub fn elapsed(&self, now: u64) -> (age: u64)
        ensures
            age == elapsed_between(self.start_time, now),
    {
        if now >= self.start_time {
            now - self.start_time
        } else {
            0
        }
    }

    /// Growth after `elapsed` milliseconds, from zero to one whole along a
    /// cubic ease-out.
    pub fn bloom_progress(&self, elapsed: u64) -> (progress: u32)
        ensures
            progress == self.bloom_at(elapsed as nat),
            progress <= UNIT,
    {
        ease_out(elapsed, self.gene.params().bloom_duration)
    }

    /// Opacity after `elapsed` milliseconds: one whole until the life span
    /// has passed, then down to zero along the mirrored growth curve. Always
    /// one whole for a bloom without a life span.
    pub fn death_progress(&self, elapsed: u64) -> (progress: u32)
        ensures
            progress == self.opacity_at(elapsed as nat),
            progress <= UNIT,
    {
        let params = self.gene.params();
        fade_out(elapsed, params.life_span, params.bloom_duration)
    }

    /// Whether the bloom has faded out entirely at the time `now`: it has a
    /// life span, and more than life span plus bloom duration has elapsed.
    pub fn is_dead(&self, now: u64) -> (dead: bool)
        ensures
            dead == self.dead_at(now),
    {
        let params = self.gene.params();
        match params.life_span {
            None => false,
            Some(span) => self.elapsed(now) > span as u64 + params.bloom_duration as u64,
        }
    }

    /// The bloom as it is at the time `now`: where it stands, how it is
    /// turned, how far it has grown and how opaque it still is.
    pub fn snapshot(&self, now: u64) -> (shot: Snapshot)
        ensures
            shot == self.snapshot_at(now),
            shot.bloom_progress == self.bloom_at(elapsed_between(self.start_time, now)),
            shot.death_progress == self.opacity_at(elapsed_between(self.start_time, now)),
    {
        let elapsed: u64 = self.elapsed(now);
        Snapshot {
            position: self.pos,
            orientation: self.orientation,
            bloom_progress: self.bloom_progress(elapsed),
            death_progress: self.death_progress(elapsed),
            gene: self.gene,
        }
    }

    /// The radius this bloom takes up when fully grown.
    pub fn footprint_radius(&self) -> (radius: u32)
        ensures
            radius == self.radius(),
    {
        self.gene.full_radius()
    }

    /// The largest radius a new bloom can have at `new_pos` without touching
    /// one of `others` or leaving `canvas`: the smallest gap between the point
    /// and the rims of the others, but not less than zero, and then no more
    /// than the distance to the nearest canvas edge. It is never negative:
    /// at a point beyond an edge of the canvas it is zero.
    pub fn max_radius(canvas: Rect, new_pos: Point, others: &[Flower]) -> (radius: i64)
        ensures
            radius == max_radius_of(canvas, new_pos, others@),
            radius >= 0,
            on_canvas(canvas, new_pos) ==> radius <= edge_distance_of(canvas, new_pos),
            !on_canvas(canvas, new_pos) ==> radius == 0,
    {
        proof {
            lemma_max_radius_bounds(canvas, new_pos, others@);
        }
        let edge: i64 = edge_distance(canvas, new_pos);
        let mut least: Option<i64> = None;
        let mut index: usize = 0;
        while index < others.len()
            invariant
                index <= others.len(),
                match least {
                    None => nearest_gap(new_pos, others@.take(index as int)) is None,
                    Some(gap) => nearest_gap(new_pos, others@.take(index as int)) == Some(
                        gap as int,
                    ),
                },
            decreases others.len() - index,
        {
            let other = &others[index];
            let gap: i64 = distance(other.pos, new_pos) as i64 - other.footprint_radius() as i64;
            proof {
                let seen = others@.take(index as int + 1);
                assert(seen.drop_last() =~= others@.take(index as int));
                assert(seen.last() == others@[index as int]);
                assert(gap == gap_of(new_pos, others@[index as int]));
            }
            least =
            match least {
                None => Some(gap),
                Some(so_far) => Some(
                    if so_far <= gap {
                        so_far
                    } else {
                        gap
                    },
                ),
            };
            index += 1;
        }
        proof {
            assert(others@.take(index as int) =~= others@);
        }
        let room: i64 = match least {
            None => edge,
            Some(gap) => {
                let floored: i64 = if gap >= 0 {
                    gap
                } else {
                    0
                };
                if floored <= edge {
                    floored
                } else {
                    edge
                }
            },
        };
        if room >= 0 {
            room
        } else {
            0
        }
    }

    /// Everything there is to draw of this bloom after `elapsed`
    /// milliseconds: one ellipse per petal, evenly spread over a full turn
    /// from the bloom's orientation on, then the outer and the inner centre
    /// disc. All lengths grow with the bloom progress; all colours carry the
    /// death progress as their opacity.
    pub fn render_geometry(&self, elapsed: u64) -> (shapes: Vec<Shape>)
        ensures
            shapes@ == self.geometry_at(elapsed as nat),
    {
        let params = self.gene.params();
        let progress: u32 = self.bloom_progress(elapsed);
        let opacity: u32 = self.death_progress(elapsed);
        let reach: u32 = portion(params.size, progress) as u32;
        let offset: u32 = portion(reach, params.centre_dist_prop) as u32;
        let half_length: u32 = portion(reach, UNIT - params.centre_dist_prop) as u32;
        let half_width: u32 = portion(half_length, params.petal_width_prop) as u32;
        let petal_colour = params.petal_colour.with_alpha(opacity);
        let centre_colour = params.centre_colour.with_alpha(opacity);
        let count: u32 = params.num_petals;
        let mut shapes: Vec<Shape> = Vec::new();
        let mut index: u32 = 0;
        while index < count
            invariant
                index <= count,
                count == self.gene@.num_petals,
                count >= 1,
                shapes@ =~= Seq::new(index as nat, |i: int| self.petal_at(i, elapsed as nat)),
                reach == self.reach_at(elapsed as nat),
                offset == self.gene@.petal_offset_at(reach as int),
                half_length == self.gene@.petal_half_length_at(reach as int),
                half_width == self.gene@.petal_half_width_at(reach as int),
                petal_colour == (Colour {
                    alpha: self.opacity_at(elapsed as nat) as u32,
                    ..self.gene@.petal_colour
                }),
            decreases count - index,
        {
            proof {
                assert(0 <= index * UNIT <= 0xffff_ffff * 1_000_000) by (nonlinear_arith)
                    requires
                        0 <= index <= 0xffff_ffff,
                        UNIT == 1_000_000,
                ;
                assert(0 <= (index * UNIT) / (count as int) <= index * UNIT) by (nonlinear_arith)
                    requires
                        0 <= index * UNIT,
                        count >= 1,
                ;
            }
            let turned: u64 = (index as u64 * UNIT as u64) / (count as u64);
            let angle: u64 = turned + self.orientation as u64;
            shapes.push(
                Shape::Petal {
                    anchor: self.pos,
                    angle,
                    offset,
                    half_length,
                    half_width,
                    colour: petal_colour,
                },
            );
            index += 1;
        }
        shapes.push(
            Shape::Disc {
                centre: self.pos,
                radius: portion(reach, params.centre_radius_outer_prop) as u32,
                colour: petal_colour,
            },
        );
        shapes.push(
            Shape::Disc {
                centre: self.pos,
                radius: portion(reach, params.centre_radius_inner_prop) as u32,
                colour: centre_colour,
            },
        );
        assert(shapes@ =~= self.geometry_at(elapsed as nat));
        shapes
    }
}

} // verus!
