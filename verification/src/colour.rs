//! Colours as four linear-light channels in millionths of full intensity.

use vstd::prelude::*;
use crate::fixed::{portion, portion_of};

verus! {

/// A colour with an opacity. Each channel counts millionths of full
/// intensity; values above one million are brighter than full.
#[derive(Clone, Copy, Debug, PartialEq, Eq, Structural)]
pub struct Colour {
    pub red: u32,
    pub green: u32,
    pub blue: u32,
    pub alpha: u32,
}

/// A channel multiplied by `mult` millionths, rounded down and held at the
/// largest value a channel can carry.
pub open spec fn scaled_channel(channel: u32, mult: u32) -> u32 {
    let exact = portion_of(channel as int, mult as int);
    if exact > u32::MAX {
        u32::MAX
    } else {
        exact as u32
    }
}

/// `colour` with its three colour channels multiplied by `mult` millionths;
/// the opacity is kept.
pub open spec fn mult_colour_of(colour: Colour, mult: u32) -> Colour {
    Colour {
        red: scaled_channel(colour.red, mult),
        green: scaled_channel(colour.green, mult),
        blue: scaled_channel(colour.blue, mult),
        alpha: colour.alpha,
    }
}

fn scale_channel(channel: u32, mult: u32) -> (scaled: u32)
    ensures
        scaled == scaled_channel(channel, mult),
{
    let exact: u64 = portion(channel, mult);
    if exact > u32::MAX as u64 {
        u32::MAX
    } else {
        exact as u32
    }
}

/// Darkens or brightens a colour: red, green and blue are multiplied by
/// `mult` millionths, the opacity stays as it is.
pub fn mult_colour(colour: Colour, mult: u32) -> (scaled: Colour)
    ensures
        scaled == mult_colour_of(colour, mult),
{
    Colour {
        red: scale_channel(colour.red, mult),
        green: scale_channel(colour.green, mult),
        blue: scale_channel(colour.blue, mult),
        alpha: colour.alpha,
    }
}

impl Colour {
    /// The same colour at another opacity.
    pub fn with_alpha(self, alpha: u32) -> (faded: Colour)
        ensures
            faded == (Colour { alpha, ..self }),
    {
        Colour { red: self.red, green: self.green, blue: self.blue, alpha }
    }
}

} // verus!
