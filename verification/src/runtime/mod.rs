//! What generated mappers call: normalization, lexical checks, adapters, and the
//! result type with its diagnostics.
pub mod adapter;
pub mod normalize;
pub mod result;
pub mod shape_laws;
pub mod validate;
