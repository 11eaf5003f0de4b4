//! 2D object primitives for Fast2D: the font description types used by text objects.

pub mod text;
pub mod types;

pub use text::{FontWeight, Family};
