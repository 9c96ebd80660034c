//! The interactive session: a garden, the gene that new blooms get, and the
//! stroke that the pointer is drawing.
//!
//! The left button draws a stroke; when it is released a bloom is planted at
//! every point of the stroke where one fits. The right button takes out the
//! bloom under the pointer.

use vstd::prelude::*;
use crate::flower::Flower;
use crate::garden::{nearest_of, planted_along, Garden};
use crate::gene::{FlowerGene, GeneParams};
use crate::geometry::{Point, Rect};
use crate::packing::try_place_of;
use crate::relax::{relaxed, settled};

verus! {

/// The smallest scale, in millionths, at which a bloom is still planted: a
/// bloom that would have to shrink below a quarter of its size is not worth
/// planting.
pub const MIN_SCALE: u32 = 250_000;

/// What the pointer did.
#[derive(Clone, Copy, Debug, PartialEq, Eq)]
pub enum PointerEvent {
    /// The left button went down at a point.
    LeftPressed(Point),
    /// The right button went down at a point.
    RightPressed(Point),
    /// The left button came up.
    LeftReleased,
    /// The pointer moved to a point.
    Moved(Point),
}

/// The state of a session.
#[derive(Debug)]
pub struct Sketch {
    garden: Garden,
    gene: FlowerGene,
    pen_down: bool,
    trail: Vec<Point>,
}

/// A session as plain values.
pub struct SketchView {
    pub garden: Seq<Flower>,
    pub gene: GeneParams,
    pub pen_down: bool,
    pub trail: Seq<Point>,
}

impl View for Sketch {
    type V = SketchView;

    closed spec fn view(&self) -> SketchView {
        SketchView {
            garden: self.garden@,
            gene: self.gene@,
            pen_down: self.pen_down,
            trail: self.trail@,
        }
    }
}

/// What an event makes of a session.
///
/// - The left button going down starts a stroke at the point.
/// - A move extends the stroke while the button is down, and does nothing
///   otherwise.
/// - The left button coming up plants along the stroke, with the session's
///   gene and [`MIN_SCALE`], and clears the stroke.
/// - The right button going down takes out the bloom that the pointer picks.
pub open spec fn handled(
    before: SketchView,
    after: SketchView,
    event: PointerEvent,
    canvas: Rect,
    now: u64,
) -> bool {
    match event {
        PointerEvent::LeftPressed(point) => after == (SketchView {
            pen_down: true,
            trail: before.trail.push(point),
            ..before
        }),
        PointerEvent::Moved(point) => after == if before.pen_down {
            SketchView { trail: before.trail.push(point), ..before }
        } else {
            before
        },
        PointerEvent::LeftReleased => {
            &&& after.gene == before.gene
            &&& !after.pen_down
            &&& after.trail == Seq::<Point>::empty()
            &&& planted_along(
                before.garden,
                after.garden,
                before.trail,
                before.gene,
                canvas,
                MIN_SCALE,
                now,
            )
        },
        PointerEvent::RightPressed(point) => after == (SketchView {
            garden: match nearest_of(before.garden, point) {
                Some(index) => before.garden.remove(index),
                None => before.garden,
            },
            ..before
        }),
    }
}

impl Sketch {
    /// A session with an empty garden, in which new blooms get `gene`.
    pub fn new(gene: FlowerGene) -> (sketch: Sketch)
        ensures
            sketch@ == (SketchView {
                garden: Seq::<Flower>::empty(),
                gene: gene@,
                pen_down: false,
                trail: Seq::<Point>::empty(),
            }),
    {
        Sketch { garden: Garden::new(), gene, pen_down: false, trail: Vec::new() }
    }

    /// The garden, for reading.
    pub fn garden(&self) -> (garden: &Garden)
        ensures
            garden@ == self@.garden,
    {
        &self.garden
    }

    /// The gene that new blooms get.
    pub fn gene(&self) -> (gene: FlowerGene)
        ensures
            gene@ == self@.gene,
    {
        self.gene
    }

    /// Whether a stroke is being drawn.
    pub fn pen_down(&self) -> (down: bool)
        ensures
            down == self@.pen_down,
    {
        self.pen_down
    }

    /// The points of the stroke so far.
    pub fn trail(&self) -> (trail: &[Point])
        ensures
            trail@ == self@.trail,
    {
        self.trail.as_slice()
    }

    /// Gives new blooms another gene. Blooms already planted keep theirs.
    pub fn set_gene(&mut self, gene: FlowerGene)
        ensures
            final(self)@ == (SketchView { gene: gene@, ..old(self)@ }),
    {
        self.gene = gene;
    }

    /// Takes every bloom out of the garden.
    pub fn reset(&mut self)
        ensures
            final(self)@ == (SketchView { garden: Seq::<Flower>::empty(), ..old(self)@ }),
    {
        self.garden.clear();
    }

    /// Takes out every bloom that has faded out entirely at the time `now`
    /// and returns their number.
    pub fn remove_dead(&mut self, now: u64) -> (removed: usize)
        ensures
            final(self)@ == (SketchView {
                garden: old(self)@.garden.filter(|flower: Flower| !flower.dead_at(now)),
                ..old(self)@
            }),
            removed == old(self)@.garden.len() - final(self)@.garden.len(),
    {
        self.garden.remove_dead(now)
    }

    /// One relaxation pass over the garden.
    pub fn relax(&mut self, margin: u32)
        ensures
            final(self)@ == (SketchView {
                garden: relaxed(old(self)@.garden, margin as nat),
                ..old(self)@
            }),
    {
        self.garden.relax(margin);
    }

    /// Whether a bloom of the session's gene would be planted at `point`.
    pub fn can_place(&self, point: Point, canvas: Rect) -> (fits: bool)
        ensures
            fits == try_place_of(point, self@.gene, self@.garden, canvas, MIN_SCALE) is Some,
    {
        self.garden.try_place(point, &self.gene, canvas, MIN_SCALE).is_some()
    }

    /// Takes one pointer event in. `canvas` is the canvas at the time of
    /// the event, `now` its time.
    pub fn handle(&mut self, event: PointerEvent, canvas: Rect, now: u64)
        ensures
            handled(old(self)@, final(self)@, event, canvas, now),
            settled(old(self)@.garden, 0) && old(self)@.gene.size > 0 ==> settled(
                final(self)@.garden,
                0,
            ),
    {
        match event {
            PointerEvent::LeftPressed(point) => {
                self.pen_down = true;
                self.trail.push(point);
            },
            PointerEvent::Moved(point) => {
                if self.pen_down {
                    self.trail.push(point);
                }
            },
            PointerEvent::LeftReleased => {
                self.pen_down = false;
                self.garden.plant_along(self.trail.as_slice(), &self.gene, canvas, MIN_SCALE, now);
                self.trail.clear();
            },
            PointerEvent::RightPressed(point) => {
                self.garden.remove_nearest(point);
            },
        }
    }
}

} // verus!
