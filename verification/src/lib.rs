//! Dice notation: reading a die from its short written form, and rolling it.
//!
//! A notation is either one of six two-letter codes, each naming a narrative
//! die with a fixed table of faces, or a count and a number of sides around
//! the letter `d`, as in `2d6`. `Dice::from` reads a notation and gives a
//! `DieDescriptor`, or says in a `ParseError` why it names no die; the
//! descriptor's `roll` gives the result of one roll as text.

pub mod die;
pub mod error;
pub mod notation;
pub mod number;
pub mod text;

pub use die::{DieDescriptor, BOOST, CHALLENGE, DIFFICULTY, FORCE, PROFICIENCY, SETBACK};
pub use error::ParseError;
pub use notation::{Dice, DEFAULT_LIMIT};
