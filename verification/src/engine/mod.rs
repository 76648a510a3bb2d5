//! The engine: spokes, transformation through the hub, the comparison of
//! spokes, and what the command line and the server decide.
pub mod analysis;
pub mod cli;
pub mod keys;
pub mod message_laws;
pub mod registry;
pub mod registry_laws;
pub mod server;
pub mod spoke;
pub mod table;
pub mod table_laws;
pub mod transform;
