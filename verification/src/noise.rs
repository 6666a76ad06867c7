//! Seeded gradient noise in fixed-point arithmetic.
//!
//! Coordinates and values are signed fixed-point numbers with sixteen
//! fractional bits: the integer `65536` stands for `1.0`.

pub mod basic_perlin;
pub mod fade;
pub mod perlin;
