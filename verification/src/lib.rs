//! Turns the description of an enumerated API parameter into the source of a
//! type with one case for each permitted wire value, together with the
//! operations that parse a wire string into a case and serialize a case back.

pub mod annotation;
pub mod casing;
pub mod emit;
pub mod model;
pub mod normalize;
pub mod text;
pub mod tokens;
