//! The mapping compiler: parsing, inheritance, the typed IR, the derived hub,
//! validation, reports and code generation.
pub mod agree_laws;
pub mod clean_laws;
pub mod codegen;
pub mod cycles;
pub mod compile;
pub mod cycle_laws;
pub mod decode;
pub mod devtool;
pub mod error;
pub mod gap_laws;
pub mod hub;
pub mod hub_laws;
pub mod ir;
pub mod ir_laws;
pub mod load_laws;
pub mod loader;
pub mod meta;
pub mod multiple;
pub mod naming_laws;
pub mod node;
pub mod normalize;
pub mod parse;
pub mod parse_laws;
pub mod source_model;
pub mod report;
pub mod report_laws;
pub mod resolve;
pub mod rule_laws;
pub mod types;
pub mod validate;
pub mod value;
