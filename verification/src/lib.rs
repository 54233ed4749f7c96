//! Encoder core for QR Code and Micro QR Code symbols.
//!
//! The canvas draws the functional patterns (finders, alignment, timing,
//! format and version information), places data and error-correction
//! codewords along the zig-zag data walk, applies the admissible mask
//! patterns and selects the one with the lowest penalty score.

pub mod canvas;
pub mod data;
pub mod functional;
pub mod mask;
pub mod module;
pub mod patterns;
pub mod penalty;
pub mod readout;
pub mod select;
pub mod tables;
pub mod types;
pub mod walk;
