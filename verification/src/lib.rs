//! Points, vectors and colours for a ray tracer, over binary64 numbers whose
//! arithmetic is carried out on their bit patterns and proved against exact
//! integer arithmetic.

pub mod accuracy;
pub mod approx;
pub mod colour;
pub mod dyadic;
pub mod laws;
pub mod order;
pub mod point;
pub mod product;
pub mod quotient;
pub mod root;
pub mod rounding;
pub mod scalar;
pub mod sign;
pub mod sum;
pub mod triple;
pub mod tuple;
pub mod value;
pub mod vector;
