//! A small library of verified fundamentals: a chunked fork-join sum, a
//! serialized shared-counter demo, integer parsing and rendering, and a few
//! string and selection utilities.

pub mod chunked;
pub mod counter;
pub mod numbers;
pub mod render;
pub mod text;
pub mod util;
