//! What the command line decides: arguments, formats, and output.
pub mod command;
pub mod detect;
pub mod detect_laws;
pub mod error;
pub mod parse;
pub mod parse_laws;
pub mod render;
pub mod run;
pub mod run_laws;
pub mod xml;
pub mod xml_laws;
