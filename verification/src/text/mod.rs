//! Text measurement and shaping.

pub mod strings;
pub mod width;
pub mod wrap;
