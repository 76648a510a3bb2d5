//! Generating Rust source text: the hub, the typed source structs, and the
//! mappers between them.
pub mod access;
pub mod access_laws;
pub mod append;
pub mod decl_laws;
pub mod diag;
pub mod hub;
pub mod module_laws;
pub mod naming;
pub mod plain;
pub mod plan;
pub mod read;
pub mod reader_laws;
pub mod reader_more;
pub mod reader_values;
pub mod script;
pub mod sharing;
pub mod sharing_laws;
pub mod source;
pub mod spoke;
pub mod value_laws;
pub mod whole_laws;
pub mod words;
pub mod write;
pub mod writer_laws;
