//! The typed source model: structs and fields, path resolution over them, and
//! their synthesis from mapping nodes.
pub mod meta;
pub mod resolve;
pub mod synth;
pub mod synth_laws;
