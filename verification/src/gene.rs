//! The parameter set of one bloom, and its validated form.
//!
//! [`GeneParams`] is the plain bundle an editor reads and writes.
//! [`FlowerGene`] is a bundle that passed validation: every function that
//! works on a `FlowerGene` may rely on the rules below without asking again.

use vstd::prelude::*;
use crate::colour::Colour;
use crate::fixed::{portion, portion_of, UNIT};
use crate::geometry::PIXEL;

verus! {

/// The parameters of one bloom. Lengths are in length units, proportions in
/// millionths of the bloom's size, durations in milliseconds.
#[derive(Clone, Copy, Debug, PartialEq, Eq)]
pub struct GeneParams {
    /// The radius of the bloom when fully grown.
    pub size: u32,
    /// Radius of the inner centre disc, as a proportion of the size.
    pub centre_radius_inner_prop: u32,
    /// Radius of the outer centre disc, as a proportion of the size.
    pub centre_radius_outer_prop: u32,
    /// Distance of each petal's middle from the centre, as a proportion of
    /// the size. The rest of the size is the petal's half-length.
    pub centre_dist_prop: u32,
    /// Half-width of a petal, as a proportion of its half-length.
    pub petal_width_prop: u32,
    /// Number of petals.
    pub num_petals: u32,
    /// Time the bloom takes to grow, and later to fade.
    pub bloom_duration: u32,
    /// Time after which the bloom starts to fade; `None` for a bloom that
    /// never decays.
    pub life_span: Option<u32>,
    pub centre_colour: Colour,
    pub petal_colour: Colour,
}

/// The rule that a parameter set breaks.
#[derive(Clone, Copy, Debug, PartialEq, Eq, Structural)]
pub enum GeneError {
    /// The inner centre disc is not smaller than the outer one.
    CentreRadiiOutOfOrder,
    /// The outer centre disc is larger than the bloom.
    CentreRadiusTooLarge,
    /// The petals' middle lies beyond the bloom's size.
    CentreDistanceTooLarge,
    /// A petal is wider than it is long.
    PetalWidthTooLarge,
    /// Fewer than three petals.
    TooFewPetals,
    /// The bloom duration is zero.
    NoBloomDuration,
    /// A life span is given and is zero.
    NoLifeSpan,
}

/// The smallest number of petals a bloom can have.
pub const MIN_PETALS: u32 = 3;

impl GeneParams {
    /// The first rule these parameters break, in the order in which
    /// [`GeneError`] lists them, or `None` when they break none.
    pub open spec fn violation(self) -> Option<GeneError> {
        if self.centre_radius_inner_prop >= self.centre_radius_outer_prop {
            Some(GeneError::CentreRadiiOutOfOrder)
        } else if self.centre_radius_outer_prop > UNIT {
            Some(GeneError::CentreRadiusTooLarge)
        } else if self.centre_dist_prop > UNIT {
            Some(GeneError::CentreDistanceTooLarge)
        } else if self.petal_width_prop > UNIT {
            Some(GeneError::PetalWidthTooLarge)
        } else if self.num_petals < MIN_PETALS {
            Some(GeneError::TooFewPetals)
        } else if self.bloom_duration == 0 {
            Some(GeneError::NoBloomDuration)
        } else if self.life_span == Some(0u32) {
            Some(GeneError::NoLifeSpan)
        } else {
            None
        }
    }

    /// Whether the parameters describe a bloom: proportions within one
    /// whole, the inner disc inside the outer one, at least three petals and
    /// positive durations.
    pub open spec fn valid(self) -> bool {
        &&& self.centre_radius_inner_prop < self.centre_radius_outer_prop <= UNIT
        &&& self.centre_dist_prop <= UNIT
        &&& self.petal_width_prop <= UNIT
        &&& self.num_petals >= MIN_PETALS
        &&& self.bloom_duration > 0
        &&& self.life_span != Some(0u32)
    }

    /// The same parameters at another size.
    pub open spec fn resized(self, size: u32) -> GeneParams {
        GeneParams { size, ..self }
    }

    /// The radius of the bloom at full growth: the reach of its petals.
    pub open spec fn full_radius(self) -> nat {
        self.size as nat
    }

    /// The distance of a petal's middle from the centre of a bloom that has
    /// grown to the radius `reach`.
    pub open spec fn petal_offset_at(self, reach: int) -> int {
        portion_of(reach, self.centre_dist_prop as int)
    }

    /// Half the length of a petal of a bloom that has grown to the radius
    /// `reach`: what the petal's middle leaves of the radius.
    pub open spec fn petal_half_length_at(self, reach: int) -> int {
        portion_of(reach, UNIT - self.centre_dist_prop)
    }

    /// Half the width of a petal of a bloom that has grown to the radius
    /// `reach`.
    pub open spec fn petal_half_width_at(self, reach: int) -> int {
        portion_of(self.petal_half_length_at(reach), self.petal_width_prop as int)
    }

    /// The radius of the outer centre disc of a bloom that has grown to the
    /// radius `reach`.
    pub open spec fn outer_radius_at(self, reach: int) -> int {
        portion_of(reach, self.centre_radius_outer_prop as int)
    }

    /// The radius of the inner centre disc of a bloom that has grown to the
    /// radius `reach`.
    pub open spec fn inner_radius_at(self, reach: int) -> int {
        portion_of(reach, self.centre_radius_inner_prop as int)
    }

    /// The parameters of the bloom a new garden offers first: a radius of
    /// 65 pixels, five petals, a golden centre on off-white petals.
    pub open spec fn standard() -> GeneParams {
        GeneParams {
            size: 65_000,
            centre_radius_inner_prop: 300_000,
            centre_radius_outer_prop: 400_000,
            centre_dist_prop: 620_000,
            petal_width_prop: 620_000,
            num_petals: 5,
            bloom_duration: 5_000,
            life_span: Some(10_000u32),
            centre_colour: Colour { red: 838_799, green: 445_201, blue: 49_707, alpha: 1_000_000 },
            petal_colour: Colour {
                red: 1_000_000,
                green: 955_973,
                blue: 871_367,
                alpha: 1_000_000,
            },
        }
    }

    /// Checks the parameters against the rules and reports the first one
    /// broken.
    pub fn check(&self) -> (outcome: Result<(), GeneError>)
        ensures
            outcome is Ok <==> self.valid(),
            outcome matches Err(broken) ==> self.violation() == Some(broken),
            outcome is Ok ==> self.violation() is None,
    {
        if self.centre_radius_inner_prop >= self.centre_radius_outer_prop {
            Err(GeneError::CentreRadiiOutOfOrder)
        } else if self.centre_radius_outer_prop > UNIT {
            Err(GeneError::CentreRadiusTooLarge)
        } else if self.centre_dist_prop > UNIT {
            Err(GeneError::CentreDistanceTooLarge)
        } else if self.petal_width_prop > UNIT {
            Err(GeneError::PetalWidthTooLarge)
        } else if self.num_petals < MIN_PETALS {
            Err(GeneError::TooFewPetals)
        } else if self.bloom_duration == 0 {
            Err(GeneError::NoBloomDuration)
        } else {
            match self.life_span {
                Some(span) => {
                    if span == 0 {
                        Err(GeneError::NoLifeSpan)
                    } else {
                        Ok(())
                    }
                },
                None => Ok(()),
            }
        }
    }
}

/// Parameters are valid exactly when they break no rule.
pub proof fn lemma_valid_iff_no_violation(params: GeneParams)
    ensures
        params.valid() <==> params.violation() is None,
{
}

/// The standard parameters are valid, and resizing never breaks validity.
pub proof fn lemma_resized_stays_valid(params: GeneParams, size: u32)
    ensures
        GeneParams::standard().valid(),
        params.valid() ==> params.resized(size).valid(),
{
}

/// A validated parameter set. It is immutable: a change of parameters goes
/// through [`FlowerGene::new`] again, except for the size, which no rule
/// restricts.
#[derive(Clone, Copy, Debug, PartialEq, Eq)]
pub struct FlowerGene {
    params: GeneParams,
}

impl View for FlowerGene {
    type V = GeneParams;

    closed spec fn view(&self) -> GeneParams {
        self.params
    }
}

impl FlowerGene {
    /// Holds of every gene: its parameters are valid.
    #[verifier::type_invariant]
    pub open spec fn well_formed(self) -> bool {
        self@.valid()
    }

    /// Validates `params`. Fails with the first rule broken, in the order of
    /// [`GeneError`]; succeeds on every valid parameter set and then holds
    /// exactly those parameters.
    pub fn new(params: GeneParams) -> (outcome: Result<FlowerGene, GeneError>)
        ensures
            outcome is Ok <==> params.valid(),
            outcome matches Ok(gene) ==> gene@ == params,
            outcome matches Err(broken) ==> params.violation() == Some(broken),
    {
        match params.check() {
            Ok(()) => Ok(FlowerGene { params }),
            Err(broken) => Err(broken),
        }
    }

    /// The parameters this gene holds.
    pub fn params(&self) -> (params: GeneParams)
        ensures
            params == self@,
            params.valid(),
    {
        proof {
            use_type_invariant(self);
        }
        self.params
    }

    /// The radius of the bloom at full growth.
    pub fn full_radius(&self) -> (radius: u32)
        ensures
            radius == self@.full_radius(),
    {
        self.params.size
    }

    /// The distance of a petal's middle from the centre, at full growth.
    pub fn petal_offset(&self) -> (length: u32)
        ensures
            length == self@.petal_offset_at(self@.size as int),
    {
        proof {
            use_type_invariant(self);
        }
        portion(self.params.size, self.params.centre_dist_prop) as u32
    }

    /// Half the length of a petal, at full growth.
    pub fn petal_half_length(&self) -> (length: u32)
        ensures
            length == self@.petal_half_length_at(self@.size as int),
    {
        proof {
            use_type_invariant(self);
        }
        portion(self.params.size, UNIT - self.params.centre_dist_prop) as u32
    }

    /// Half the width of a petal, at full growth.
    pub fn petal_half_width(&self) -> (length: u32)
        ensures
            length == self@.petal_half_width_at(self@.size as int),
    {
        proof {
            use_type_invariant(self);
        }
        portion(self.petal_half_length(), self.params.petal_width_prop) as u32
    }

    /// The radius of the outer centre disc, at full growth.
    pub fn centre_radius_outer(&self) -> (length: u32)
        ensures
            length == self@.outer_radius_at(self@.size as int),
    {
        proof {
            use_type_invariant(self);
        }
        portion(self.params.size, self.params.centre_radius_outer_prop) as u32
    }

    /// The radius of the inner centre disc, at full growth.
    pub fn centre_radius_inner(&self) -> (length: u32)
        ensures
            length == self@.inner_radius_at(self@.size as int),
    {
        proof {
            use_type_invariant(self);
        }
        portion(self.params.size, self.params.centre_radius_inner_prop) as u32
    }

    /// The same gene at another size.
    pub fn with_size(self, size: u32) -> (resized: FlowerGene)
        ensures
            resized@ == self@.resized(size),
    {
        proof {
            use_type_invariant(&self);
        }
        let params = self.params;
        FlowerGene {
            params: GeneParams {
                size,
                centre_radius_inner_prop: params.centre_radius_inner_prop,
                centre_radius_outer_prop: params.centre_radius_outer_prop,
                centre_dist_prop: params.centre_dist_prop,
                petal_width_prop: params.petal_width_prop,
                num_petals: params.num_petals,
                bloom_duration: params.bloom_duration,
                life_span: params.life_span,
                centre_colour: params.centre_colour,
                petal_colour: params.petal_colour,
            },
        }
    }
}

/// The lengths of a valid bloom that has grown to a radius `reach`: none is
/// negative, none exceeds the radius, a petal is no wider than long, and the
/// inner disc is no larger than the outer one.
pub proof fn lemma_lengths_within_reach(params: GeneParams, reach: int)
    requires
        params.valid(),
        reach >= 0,
    ensures
        0 <= params.petal_offset_at(reach) <= reach,
        0 <= params.petal_half_width_at(reach) <= params.petal_half_length_at(reach) <= reach,
        0 <= params.inner_radius_at(reach) <= params.outer_radius_at(reach) <= reach,
        params.petal_offset_at(reach) + params.petal_half_length_at(reach) <= reach,
{
    lemma_portion_bounds(reach, params.centre_dist_prop as int);
    lemma_portion_bounds(reach, UNIT - params.centre_dist_prop);
    lemma_portion_bounds(params.petal_half_length_at(reach), params.petal_width_prop as int);
    lemma_portion_bounds(reach, params.centre_radius_outer_prop as int);
    lemma_portion_bounds(reach, params.centre_radius_inner_prop as int);
    let inner: int = params.centre_radius_inner_prop as int;
    let outer: int = params.centre_radius_outer_prop as int;
    assert((reach * inner) / 1_000_000 <= (reach * outer) / 1_000_000) by (nonlinear_arith)
        requires
            reach >= 0,
            0 <= inner <= outer,
    ;
    let near: int = params.centre_dist_prop as int;
    assert((reach * near) / 1_000_000 + (reach * (1_000_000 - near)) / 1_000_000 <= reach)
        by (nonlinear_arith)
        requires
            reach >= 0,
            0 <= near <= 1_000_000,
    ;
}

/// A portion of at most one whole of a length lies between nothing and the
/// length.
pub proof fn lemma_portion_bounds(length: int, fraction: int)
    requires
        length >= 0,
        0 <= fraction <= UNIT,
    ensures
        0 <= portion_of(length, fraction) <= length,
{
    assert(0 <= (length * fraction) / 1_000_000 <= length) by (nonlinear_arith)
        requires
            length >= 0,
            0 <= fraction <= 1_000_000,
    ;
}

impl Default for FlowerGene {
    /// The standard bloom.
    fn default() -> (gene: FlowerGene)
        ensures
            gene@ == GeneParams::standard(),
    {
        FlowerGene {
            params: GeneParams {
                size: 65 * PIXEL,
                centre_radius_inner_prop: 300_000,
                centre_radius_outer_prop: 400_000,
                centre_dist_prop: 620_000,
                petal_width_prop: 620_000,
                num_petals: 5,
                bloom_duration: 5_000,
                life_span: Some(10_000),
                centre_colour: Colour {
                    red: 838_799,
                    green: 445_201,
                    blue: 49_707,
                    alpha: 1_000_000,
                },
                petal_colour: Colour {
                    red: 1_000_000,
                    green: 955_973,
                    blue: 871_367,
                    alpha: 1_000_000,
                },
            },
        }
    }
}

} // verus!
