//! An e-invoice mapping compiler and the engine around it.
pub mod dsl;
pub mod engine;
pub mod ordmap;
pub mod runtime;
pub mod text;
pub mod text_laws;
