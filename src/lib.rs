//! Building blocks for palettes of mutually distinguishable colors.
//!
//! The perceptual arithmetic (gamma decoding, Oklab, distances) is done in
//! floating point by the caller; this crate holds the discrete decisions that
//! sit around it: the 8-bit gamut and its enumeration, the maximin reduction
//! with a deterministic tie-break, the growing palette, and the bisection that
//! drives gamut clamping.

pub mod rgb;
pub mod bisection;
pub mod palette;
pub mod selection;
