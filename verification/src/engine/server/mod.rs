//! What the server decides: configuration, admission, replies, and the steps of a
//! request.
pub mod config;
pub mod config_laws;
pub mod gate;
pub mod handle;
pub mod probe;
pub mod reply_laws;
pub mod router;
