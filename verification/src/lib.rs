//! Renders an RGBA pixel grid as ANSI terminal art.
//!
//! Each character cell stands for two vertically adjacent source pixels,
//! drawn with the upper- and lower-half-block glyphs and 24-bit SGR color
//! sequences. The encoding of one pixel pair and the traversal of the grid
//! are verified down to the exact byte sequence they produce.

pub mod grid;
pub mod pattern;
pub mod sgr;
pub mod encode;
pub mod render;
pub mod cli;
