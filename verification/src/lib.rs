//! A garden of blooms: procedurally shaped radial flowers that are planted on
//! a bounded canvas, grow and fade with time, and keep clear of each other.
//!
//! The library is the engine behind an interactive sketch. It decides where
//! a new bloom fits and at which size ([`packing`]), pushes overlapping
//! blooms apart ([`relax`]), and tells how far each bloom has grown or faded
//! at a given time ([`easing`], [`flower`]). The collection of blooms is the
//! [`garden`]; a [`sketch`] adds the pointer strokes that plant them. What an
//! editor may set of a bloom is listed in [`editor`].
//!
//! All values are whole numbers. A result that cannot be a whole number is
//! rounded, and the contract of the function says in which direction and by
//! how much. The units are:
//!
//! - lengths and coordinates are thousandths of a pixel;
//! - times are milliseconds on a clock that the caller reads;
//! - proportions, progress, colour channels and scales are millionths;
//! - angles are millionths of a full turn.
//!
//! Drawing, windows, files and clocks are left to the program around the
//! library.

pub mod fixed;
pub mod geometry;
pub mod colour;
pub mod gene;
pub mod editor;
pub mod easing;
pub mod flower;
pub mod packing;
pub mod relax;
pub mod garden;
pub mod sketch;
