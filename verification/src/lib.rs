//! Assembler for a stack-machine language whose programs are images: every
//! instruction of the source text becomes one or more RGB pixels.
//!
//! The library turns source lines into an ordered sequence of colors. An
//! operation without operands is drawn in the color the palette assigns to
//! it; integer and text literals are compiled into data pixels, whose channel
//! sum is the value pushed, combined by arithmetic operations, and never drawn
//! in a color that the palette has given to an operation.
//!
//! - [`parser`] splits a line into tokens.
//! - [`instructions`] holds the catalog of operations and resolves tokens.
//! - [`params`] holds the settings of a run and the palette.
//! - [`color`] holds colors and how one is chosen for a magnitude.
//! - [`encoder`] compiles literals into pixels.
//! - [`soundness`] and [`machine`] state what holds of those pixels.
//! - [`assembler`] compiles whole programs and lays pixels out in rows.

pub mod assembler;
pub mod color;
pub mod encoder;
pub mod error;
pub mod instructions;
pub mod machine;
pub mod params;
pub mod parser;
pub mod soundness;
pub mod text;
