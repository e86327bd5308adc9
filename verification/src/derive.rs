//! Deriving lenses: from the shape of a struct to the lenses on its fields.

pub mod lens;
