//! Print-time estimation for laser resin printer instruction files.
//!
//! The slicer's own estimate leaves out the pause between layers. This
//! library reads the instruction lines, adds up the laser path of every
//! layer, and reports the laser time, the layer-change time and their sum,
//! each of which can be rendered as an English phrase.
//!
//! All quantities are exact integers: lengths in nanometres, feed rates in
//! millionths of a micrometre per minute, times in nanoseconds.
//!
//! - [`text`] reads a whole file, [`parser`] reads it line by line;
//! - [`line`] and [`number`] say what a line and a numeral are;
//! - [`motion`] gives the length of a move and the time it takes;
//! - [`info`] holds the totals of each layer and derives the three times;
//! - [`duration`] and [`pretty`] hold a span of time and render it;
//! - [`laws`] states what holds of every file.

pub mod duration;
pub mod error;
pub mod info;
pub mod laws;
pub mod line;
pub mod motion;
pub mod number;
pub mod parser;
pub mod pretty;
pub mod text;
