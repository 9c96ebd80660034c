//! What an editor needs to know of a gene: which parameters it offers, under
//! which label, and within which range each may be set.
//!
//! The ranges are narrower than the rules of validity: parameters that all
//! lie within their ranges are valid. The range of the outer centre radius
//! moves with the inner one, so setting the inner radius takes the outer one
//! along: parameters that lie within their ranges still do after any one
//! field was set through [`GeneParams::with_value`], whatever the value and
//! whichever the order of the fields.

use vstd::prelude::*;
use crate::fixed::UNIT;
use crate::gene::GeneParams;

verus! {

/// A parameter that an editor offers.
#[derive(Clone, Copy, Debug, PartialEq, Eq, Structural)]
pub enum GeneField {
    Size,
    CentreRadiusOuter,
    CentreRadiusInner,
    CentreDistance,
    PetalWidth,
    PetalCount,
    BloomDuration,
}

/// The values a parameter may be set to: from `low` to `high`, both
/// included. `step` is the spacing of the values that an editor offers from
/// `low` on; a value between two of them is in range all the same.
#[derive(Clone, Copy, Debug, PartialEq, Eq, Structural)]
pub struct FieldRange {
    pub low: u32,
    pub high: u32,
    pub step: u32,
}

/// `a + b`, held at the largest `u32`.
pub open spec fn capped_sum(a: u32, b: u32) -> u32 {
    if a + b > u32::MAX {
        u32::MAX
    } else {
        (a + b) as u32
    }
}

/// The range of `field`. The range of the outer centre radius depends on
/// the inner one: the outer disc is wider than the inner by between a
/// twentieth and a fifth of the bloom's size.
pub open spec fn range_for(params: GeneParams, field: GeneField) -> FieldRange {
    match field {
        GeneField::Size => FieldRange { low: 10_000, high: 200_000, step: 1 },
        GeneField::CentreRadiusOuter => FieldRange {
            low: capped_sum(params.centre_radius_inner_prop, 50_000),
            high: capped_sum(params.centre_radius_inner_prop, 200_000),
            step: 1,
        },
        GeneField::CentreRadiusInner => FieldRange { low: 50_000, high: 500_000, step: 1 },
        GeneField::CentreDistance => FieldRange { low: 400_000, high: 650_000, step: 1 },
        GeneField::PetalWidth => FieldRange { low: 0, high: 1_000_000, step: 1 },
        GeneField::PetalCount => FieldRange { low: 4, high: 20, step: 2 },
        GeneField::BloomDuration => FieldRange { low: 1_000, high: 10_000, step: 1 },
    }
}

/// The value that `params` holds for `field`.
pub open spec fn value_for(params: GeneParams, field: GeneField) -> u32 {
    match field {
        GeneField::Size => params.size,
        GeneField::CentreRadiusOuter => params.centre_radius_outer_prop,
        GeneField::CentreRadiusInner => params.centre_radius_inner_prop,
        GeneField::CentreDistance => params.centre_dist_prop,
        GeneField::PetalWidth => params.petal_width_prop,
        GeneField::PetalCount => params.num_petals,
        GeneField::BloomDuration => params.bloom_duration,
    }
}

/// `params` with `value` stored in `field`, and nothing else changed.
pub open spec fn with_value_for(params: GeneParams, field: GeneField, value: u32) -> GeneParams {
    match field {
        GeneField::Size => GeneParams { size: value, ..params },
        GeneField::CentreRadiusOuter => GeneParams { centre_radius_outer_prop: value, ..params },
        GeneField::CentreRadiusInner => GeneParams { centre_radius_inner_prop: value, ..params },
        GeneField::CentreDistance => GeneParams { centre_dist_prop: value, ..params },
        GeneField::PetalWidth => GeneParams { petal_width_prop: value, ..params },
        GeneField::PetalCount => GeneParams { num_petals: value, ..params },
        GeneField::BloomDuration => GeneParams { bloom_duration: value, ..params },
    }
}

/// `value` brought into `range`: values below it become its low end,
/// values above it its high end.
pub open spec fn held_within(range: FieldRange, value: u32) -> u32 {
    if value < range.low {
        range.low
    } else if value > range.high {
        range.high
    } else {
        value
    }
}

/// `params` after an editor set `field` to `value`. The value is brought
/// into the field's range and stored. Where the inner centre radius was set,
/// the outer one is then brought into the range that the new inner radius
/// gives it.
pub open spec fn edited(params: GeneParams, field: GeneField, value: u32) -> GeneParams {
    let stored = with_value_for(params, field, held_within(range_for(params, field), value));
    if field == GeneField::CentreRadiusInner {
        with_value_for(
            stored,
            GeneField::CentreRadiusOuter,
            held_within(
                range_for(stored, GeneField::CentreRadiusOuter),
                stored.centre_radius_outer_prop,
            ),
        )
    } else {
        stored
    }
}

/// Whether `field` lies within its range.
pub open spec fn in_range(params: GeneParams, field: GeneField) -> bool {
    range_for(params, field).low <= value_for(params, field) <= range_for(params, field).high
}

/// Whether every parameter that an editor offers lies within its range.
pub open spec fn all_in_range(params: GeneParams) -> bool {
    forall|field: GeneField| in_range(params, field)
}

/// The parameters in the order in which an editor shows them.
pub open spec fn field_order() -> Seq<GeneField> {
    seq![
        GeneField::Size,
        GeneField::CentreRadiusOuter,
        GeneField::CentreRadiusInner,
        GeneField::CentreDistance,
        GeneField::PetalWidth,
        GeneField::PetalCount,
        GeneField::BloomDuration,
    ]
}

/// Parameters that all lie within their ranges are valid, but for a life
/// span of zero, which no range speaks of.
pub proof fn lemma_in_range_is_valid(params: GeneParams)
    requires
        all_in_range(params),
        params.life_span != Some(0u32),
    ensures
        params.valid(),
{
    assert(in_range(params, GeneField::CentreRadiusOuter));
    assert(in_range(params, GeneField::CentreRadiusInner));
    assert(in_range(params, GeneField::CentreDistance));
    assert(in_range(params, GeneField::PetalWidth));
    assert(in_range(params, GeneField::PetalCount));
    assert(in_range(params, GeneField::BloomDuration));
}

/// Setting one field leaves the field within its range, takes no other
/// field out of its range, and keeps valid parameters that lie within their
/// ranges valid and within their ranges.
pub proof fn lemma_edited_stays_in_range(params: GeneParams, field: GeneField, value: u32)
    ensures
        in_range(edited(params, field, value), field),
        field == GeneField::CentreRadiusInner ==> in_range(
            edited(params, field, value),
            GeneField::CentreRadiusOuter,
        ),
        forall|other: GeneField|
            in_range(params, other) ==> in_range(edited(params, field, value), other),
        all_in_range(params) ==> all_in_range(edited(params, field, value)),
        params.valid() && all_in_range(params) ==> edited(params, field, value).valid(),
{
    let after = edited(params, field, value);
    assert forall|other: GeneField| in_range(params, other) implies in_range(after, other) by {}
    if all_in_range(params) {
        assert forall|other: GeneField| in_range(after, other) by {
            assert(in_range(params, other));
        }
        if params.valid() {
            assert(after.life_span == params.life_span);
            lemma_in_range_is_valid(after);
        }
    }
}

/// The standard parameters lie within their ranges, and every parameter is
/// listed once in the order of the fields.
pub proof fn lemma_standard_in_range()
    ensures
        all_in_range(GeneParams::standard()),
        forall|field: GeneField| field_order().contains(field),
        field_order().no_duplicates(),
{
    assert forall|field: GeneField| field_order().contains(field) by {
        let place: int = match field {
            GeneField::Size => 0,
            GeneField::CentreRadiusOuter => 1,
            GeneField::CentreRadiusInner => 2,
            GeneField::CentreDistance => 3,
            GeneField::PetalWidth => 4,
            GeneField::PetalCount => 5,
            GeneField::BloomDuration => 6,
        };
        assert(field_order()[place] == field);
    }
}

fn add_capped(a: u32, b: u32) -> (sum: u32)
    ensures
        sum == capped_sum(a, b),
{
    if a > u32::MAX - b {
        u32::MAX
    } else {
        a + b
    }
}

fn hold_within(range: FieldRange, value: u32) -> (held: u32)
    ensures
        held == held_within(range, value),
{
    if value < range.low {
        range.low
    } else if value > range.high {
        range.high
    } else {
        value
    }
}

impl GeneField {
    /// The parameters in the order in which an editor shows them.
    pub fn all() -> (fields: Vec<GeneField>)
        ensures
            fields@ == field_order(),
    {
        let mut fields: Vec<GeneField> = Vec::new();
        fields.push(GeneField::Size);
        fields.push(GeneField::CentreRadiusOuter);
        fields.push(GeneField::CentreRadiusInner);
        fields.push(GeneField::CentreDistance);
        fields.push(GeneField::PetalWidth);
        fields.push(GeneField::PetalCount);
        fields.push(GeneField::BloomDuration);
        assert(fields@ =~= field_order());
        fields
    }

    /// The words an editor shows beside the parameter.
    pub fn label(self) -> (label: &'static str)
        ensures
            label@ == match self {
                GeneField::Size => "Flower Size:"@,
                GeneField::CentreRadiusOuter => "Centre Radius (Outer):"@,
                GeneField::CentreRadiusInner => "Centre Radius (Inner):"@,
                GeneField::CentreDistance => "Centre Distance:"@,
                GeneField::PetalWidth => "Petal Width:"@,
                GeneField::PetalCount => "Petal Count:"@,
                GeneField::BloomDuration => "Bloom Duration:"@,
            },
    {
        match self {
            GeneField::Size => "Flower Size:",
            GeneField::CentreRadiusOuter => "Centre Radius (Outer):",
            GeneField::CentreRadiusInner => "Centre Radius (Inner):",
            GeneField::CentreDistance => "Centre Distance:",
            GeneField::PetalWidth => "Petal Width:",
            GeneField::PetalCount => "Petal Count:",
            GeneField::BloomDuration => "Bloom Duration:",
        }
    }
}

impl GeneParams {
    /// The range within which an editor may set `field`.
    pub fn range_of(&self, field: GeneField) -> (range: FieldRange)
        ensures
            range == range_for(*self, field),
    {
        match field {
            GeneField::Size => FieldRange { low: 10_000, high: 200_000, step: 1 },
            GeneField::CentreRadiusOuter => FieldRange {
                low: add_capped(self.centre_radius_inner_prop, 50_000),
                high: add_capped(self.centre_radius_inner_prop, 200_000),
                step: 1,
            },
            GeneField::CentreRadiusInner => FieldRange { low: 50_000, high: 500_000, step: 1 },
            GeneField::CentreDistance => FieldRange { low: 400_000, high: 650_000, step: 1 },
            GeneField::PetalWidth => FieldRange { low: 0, high: UNIT, step: 1 },
            GeneField::PetalCount => FieldRange { low: 4, high: 20, step: 2 },
            GeneField::BloomDuration => FieldRange { low: 1_000, high: 10_000, step: 1 },
        }
    }

    /// The value held for `field`.
    pub fn value_of(&self, field: GeneField) -> (value: u32)
        ensures
            value == value_for(*self, field),
    {
        match field {
            GeneField::Size => self.size,
            GeneField::CentreRadiusOuter => self.centre_radius_outer_prop,
            GeneField::CentreRadiusInner => self.centre_radius_inner_prop,
            GeneField::CentreDistance => self.centre_dist_prop,
            GeneField::PetalWidth => self.petal_width_prop,
            GeneField::PetalCount => self.num_petals,
            GeneField::BloomDuration => self.bloom_duration,
        }
    }

    /// Sets `field` to `value`. The value is brought into the field's range
    /// first: a value outside the range is never stored. Where the inner
    /// centre radius is set, the outer one is brought into the range that
    /// the new inner radius gives it, so that the outer disc stays the wider
    /// one.
    pub fn with_value(self, field: GeneField, value: u32) -> (changed: GeneParams)
        ensures
            changed == edited(self, field, value),
            in_range(changed, field),
            forall|other: GeneField| in_range(self, other) ==> in_range(changed, other),
            self.valid() && all_in_range(self) ==> changed.valid() && all_in_range(changed),
    {
        proof {
            lemma_edited_stays_in_range(self, field, value);
        }
        let held: u32 = hold_within(self.range_of(field), value);
        let mut changed = self;
        match field {
            GeneField::Size => {
                changed.size = held;
            },
            GeneField::CentreRadiusOuter => {
                changed.centre_radius_outer_prop = held;
            },
            GeneField::CentreRadiusInner => {
                changed.centre_radius_inner_prop = held;
                changed.centre_radius_outer_prop =
                hold_within(
                    changed.range_of(GeneField::CentreRadiusOuter),
                    changed.centre_radius_outer_prop,
                );
            },
            GeneField::CentreDistance => {
                changed.centre_dist_prop = held;
            },
            GeneField::PetalWidth => {
                changed.petal_width_prop = held;
            },
            GeneField::PetalCount => {
                changed.num_petals = held;
            },
            GeneField::BloomDuration => {
                changed.bloom_duration = held;
            },
        }
        changed
    }
}

} // verus!
